//! Decoding an editor request into transport data, within a budget on nesting
//! and on the number of values read.

use super::wire::{field_value, insert_field, keys_sorted, Wire};
use vstd::prelude::*;

verus! {

/// An engine value as a request carries it.
#[derive(Debug)]
pub enum RequestValue {
    Nil,
    Bool(bool),
    Int(i64),
    /// The bit pattern of an `f64`.
    Float(u64),
    Text(String),
    /// An array; `typed` when the engine array is typed.
    Array { typed: bool, items: Vec<RequestValue> },
    /// A dictionary, its entries in the engine's order; `typed` when the engine
    /// dictionary is typed.
    Dictionary { typed: bool, entries: Vec<(RequestValue, RequestValue)> },
    /// Any other kind of engine value.
    Other,
}

/// The deepest nesting a request may have.
pub const MAX_REQUEST_DEPTH: usize = 32;

/// The number of values one request may hold.
pub const REQUEST_BUDGET: usize = 8192;

/// Reading `v` at nesting `depth` with `remaining` values left to read: the
/// values left afterwards, or why the request is refused. Every value read
/// costs one, children are read in order, and the first refusal stands.
pub open spec fn budget(v: RequestValue, depth: int, remaining: int) -> Result<int, Seq<char>>
    decreases v, 1int,
{
    if depth > MAX_REQUEST_DEPTH || remaining <= 0 {
        Err("request exceeds decoding budget"@)
    } else {
        match v {
            RequestValue::Array { typed, items } => if typed {
                Err("typed arrays are not supported in requests"@)
            } else {
                budget_items(items@, depth + 1, remaining - 1)
            },
            RequestValue::Dictionary { typed, entries } => if typed {
                Err("typed dictionaries are not supported in requests"@)
            } else {
                budget_entries(entries@, depth + 1, remaining - 1)
            },
            RequestValue::Other => Err("unsupported Variant in request"@),
            _ => Ok(remaining - 1),
        }
    }
}

/// Reading array items in order.
pub open spec fn budget_items(items: Seq<RequestValue>, depth: int, remaining: int) -> Result<
    int,
    Seq<char>,
>
    decreases items, 0int,
{
    if items.len() == 0 {
        Ok(remaining)
    } else {
        match budget(items[0], depth, remaining) {
            Ok(r) => budget_items(items.subrange(1, items.len() as int), depth, r),
            Err(e) => Err(e),
        }
    }
}

/// Reading dictionary entries in order: each key must be text, then its value is read.
pub open spec fn budget_entries(
    entries: Seq<(RequestValue, RequestValue)>,
    depth: int,
    remaining: int,
) -> Result<int, Seq<char>>
    decreases entries, 0int,
{
    if entries.len() == 0 {
        Ok(remaining)
    } else if !(entries[0].0 is Text) {
        Err("dictionary keys must be strings"@)
    } else {
        match budget(entries[0].1, depth, remaining) {
            Ok(r) => budget_entries(entries.subrange(1, entries.len() as int), depth, r),
            Err(e) => Err(e),
        }
    }
}

/// The text of a text value; empty for others.
pub open spec fn text_of(v: RequestValue) -> Seq<char> {
    match v {
        RequestValue::Text(t) => t@,
        _ => Seq::empty(),
    }
}

/// Entry `i` is the last one whose key is its key.
pub open spec fn last_of_key(entries: Seq<(RequestValue, RequestValue)>, i: int) -> bool {
    forall|j: int| i < j < entries.len() ==> text_of(#[trigger] entries[j].0) != text_of(entries[i].0)
}

/// `w` is the transport form of `v`: scalars as they are, arrays item by item,
/// dictionaries as objects keyed by their text keys, a repeated key keeping its
/// last value.
pub open spec fn decodes(w: Wire, v: RequestValue) -> bool
    decreases v,
{
    match v {
        RequestValue::Nil => w == Wire::Null,
        RequestValue::Bool(b) => w == Wire::Bool(b),
        RequestValue::Int(i) => w == Wire::Integer(i),
        RequestValue::Float(f) => w == Wire::Float(f),
        RequestValue::Text(s) => w matches Wire::String(t) && t@ == s@,
        RequestValue::Array { items, .. } => w matches Wire::Array(ws) && ws@.len() == items@.len()
            && forall|i: int| 0 <= i < items@.len() ==> decodes(#[trigger] ws@[i], items@[i]),
        RequestValue::Dictionary { entries, .. } => w matches Wire::Object(f) && keys_sorted(f@)
            && (forall|k: Seq<char>| #[trigger]
            field_value(f@, k) is Some <==> exists|i: int|
                0 <= i < entries@.len() && text_of(#[trigger] entries@[i].0) == k) && forall|i: int|
            0 <= i < entries@.len() && last_of_key(entries@, i) ==> decodes(
                field_value(f@, text_of(#[trigger] entries@[i].0)).unwrap(),
                entries@[i].1,
            ),
        RequestValue::Other => false,
    }
}

/// The outcome of decoding `v` from `remaining` values left: the transport form
/// and the values left after it, or the refusal.
pub open spec fn decoded(
    v: RequestValue,
    depth: int,
    before: int,
    r: Result<Wire, &'static str>,
    after: int,
) -> bool {
    match budget(v, depth, before) {
        Ok(left) => r matches Ok(w) && decodes(w, v) && after == left,
        Err(e) => r matches Err(m) && m@ == e,
    }
}

/// Decodes a request value read at nesting `depth`, counting each value read
/// against `remaining`.
pub fn decode_request(v: &RequestValue, depth: usize, remaining: &mut usize) -> (r: Result<
    Wire,
    &'static str,
>)
    ensures
        decoded(*v, depth as int, *old(remaining) as int, r, *final(remaining) as int),
    decreases v, 1int,
{
    if depth > MAX_REQUEST_DEPTH || *remaining == 0 {
        return Err("request exceeds decoding budget");
    }
    *remaining = *remaining - 1;
    match v {
        RequestValue::Nil => Ok(Wire::Null),
        RequestValue::Bool(b) => Ok(Wire::Bool(*b)),
        RequestValue::Int(i) => Ok(Wire::Integer(*i)),
        RequestValue::Float(f) => Ok(Wire::Float(*f)),
        RequestValue::Text(s) => Ok(Wire::String(s.as_str().to_owned())),
        RequestValue::Array { typed, items } => {
            if *typed {
                return Err("typed arrays are not supported in requests");
            }
            decode_items(v, items, depth + 1, remaining)
        },
        RequestValue::Dictionary { typed, entries } => {
            if *typed {
                return Err("typed dictionaries are not supported in requests");
            }
            decode_entries(v, entries, depth + 1, remaining)
        },
        RequestValue::Other => Err("unsupported Variant in request"),
    }
}

fn decode_items(
    v: &RequestValue,
    items: &Vec<RequestValue>,
    depth: usize,
    remaining: &mut usize,
) -> (r: Result<Wire, &'static str>)
    requires
        v matches RequestValue::Array { items: x, .. } && *items == x,
        depth <= MAX_REQUEST_DEPTH + 1,
    ensures
        match budget_items(items@, depth as int, *old(remaining) as int) {
            Ok(left) => r matches Ok(w) && (w matches Wire::Array(ws) && ws@.len() == items@.len()
                && forall|i: int| 0 <= i < items@.len() ==> decodes(#[trigger] ws@[i], items@[i]))
                && *final(remaining) == left,
            Err(e) => r matches Err(m) && m@ == e,
        },
    decreases v, 0int,
{
    let ghost start = *remaining as int;
    assert(items@.subrange(0, items@.len() as int) =~= items@);
    let mut out: Vec<Wire> = Vec::new();
    let mut i: usize = 0;
    while i < items.len()
        invariant
            v matches RequestValue::Array { items: x, .. } && *items == x,
            start == *old(remaining) as int,
            i <= items@.len(),
            out@.len() == i,
            forall|j: int| 0 <= j < i ==> decodes(#[trigger] out@[j], items@[j]),
            budget_items(items@, depth as int, start) == budget_items(
                items@.subrange(i as int, items@.len() as int),
                depth as int,
                *remaining as int,
            ),
        decreases items.len() - i,
    {
        let ghost rest = items@.subrange(i as int, items@.len() as int);
        assert(rest[0] == items@[i as int]);
        assert(rest.subrange(1, rest.len() as int) =~= items@.subrange(i + 1, items@.len() as int));
        proof {
            assert(decreases_to!(*v => v->Array_items));
            assert(decreases_to!(v->Array_items => v->Array_items@));
            assert(decreases_to!(v->Array_items@ => v->Array_items@[i as int]));
        }
        let ghost before = *remaining as int;
        match decode_request(&items[i], depth, remaining) {
            Ok(w) => out.push(w),
            Err(e) => {
                assert(budget(rest[0], depth as int, before) is Err);
                assert(budget_items(rest, depth as int, before) == budget(rest[0], depth as int, before));
                return Err(e);
            },
        }
        i = i + 1;
    }
    assert(items@.subrange(i as int, items@.len() as int) =~= Seq::<RequestValue>::empty());
    Ok(Wire::Array(out))
}

proof fn lemma_entry_added(
    es: Seq<(RequestValue, RequestValue)>,
    i: int,
    before: Seq<(String, Wire)>,
    after: Seq<(String, Wire)>,
    kv: Seq<char>,
    w: Wire,
)
    requires
        0 <= i < es.len(),
        kv == text_of(es[i].0),
        decodes(w, es[i].1),
        forall|k: Seq<char>| #[trigger]
            field_value(after, k) == (if k == kv {
                Some(w)
            } else {
                field_value(before, k)
            }),
        forall|k: Seq<char>| #[trigger]
            field_value(before, k) is Some <==> exists|j: int|
                0 <= j < i && text_of(#[trigger] es[j].0) == k,
        forall|j: int|
            0 <= j < i && last_of_key(es.subrange(0, i), j) ==> decodes(
                field_value(before, text_of(#[trigger] es[j].0)).unwrap(),
                es[j].1,
            ),
    ensures
        forall|k: Seq<char>| #[trigger]
            field_value(after, k) is Some <==> exists|j: int|
                0 <= j < i + 1 && text_of(#[trigger] es[j].0) == k,
        forall|j: int|
            0 <= j < i + 1 && last_of_key(es.subrange(0, i + 1), j) ==> decodes(
                field_value(after, text_of(#[trigger] es[j].0)).unwrap(),
                es[j].1,
            ),
{
    assert forall|k: Seq<char>| #[trigger] field_value(after, k) is Some <==> exists|j: int|
        0 <= j < i + 1 && text_of(#[trigger] es[j].0) == k by {
        if k == kv {
            assert(text_of(es[i].0) == k);
        } else if field_value(before, k) is Some {
            let j = choose|j: int| 0 <= j < i && text_of(#[trigger] es[j].0) == k;
            assert(0 <= j < i + 1 && text_of(es[j].0) == k);
        }
    }
    let pre = es.subrange(0, i);
    let post = es.subrange(0, i + 1);
    assert forall|j: int| 0 <= j < i + 1 && last_of_key(post, j) implies decodes(
        field_value(after, text_of(#[trigger] es[j].0)).unwrap(),
        es[j].1,
    ) by {
        if j < i {
            assert(post[i] == es[i]);
            assert(text_of(post[i].0) != text_of(post[j].0));
            assert(text_of(es[j].0) != kv);
            assert forall|m: int| j < m < pre.len() implies text_of(#[trigger] pre[m].0) != text_of(
                pre[j].0,
            ) by {
                assert(post[m] == pre[m]);
            }
            assert(last_of_key(pre, j));
        }
    }
}

fn decode_entries(
    v: &RequestValue,
    entries: &Vec<(RequestValue, RequestValue)>,
    depth: usize,
    remaining: &mut usize,
) -> (r: Result<Wire, &'static str>)
    requires
        v matches RequestValue::Dictionary { entries: x, .. } && *entries == x,
        depth <= MAX_REQUEST_DEPTH + 1,
    ensures
        match budget_entries(entries@, depth as int, *old(remaining) as int) {
            Ok(left) => r matches Ok(w) && (w matches Wire::Object(f) && keys_sorted(f@) && (
            forall|k: Seq<char>| #[trigger]
                field_value(f@, k) is Some <==> exists|i: int|
                    0 <= i < entries@.len() && text_of(#[trigger] entries@[i].0) == k) && forall|
                i: int,
            |
                0 <= i < entries@.len() && last_of_key(entries@, i) ==> decodes(
                    field_value(f@, text_of(#[trigger] entries@[i].0)).unwrap(),
                    entries@[i].1,
                )) && *final(remaining) == left,
            Err(e) => r matches Err(m) && m@ == e,
        },
    decreases v, 0int,
{
    let ghost start = *remaining as int;
    let ghost es = entries@;
    assert(es.subrange(0, es.len() as int) =~= es);
    let mut fields: Vec<(String, Wire)> = Vec::new();
    let mut i: usize = 0;
    while i < entries.len()
        invariant
            v matches RequestValue::Dictionary { entries: x, .. } && *entries == x,
            start == *old(remaining) as int,
            es == entries@,
            i <= es.len(),
            keys_sorted(fields@),
            forall|j: int| 0 <= j < i ==> es[j].0 is Text,
            forall|k: Seq<char>| #[trigger]
                field_value(fields@, k) is Some <==> exists|j: int|
                    0 <= j < i && text_of(#[trigger] es[j].0) == k,
            forall|j: int|
                0 <= j < i && last_of_key(es.subrange(0, i as int), j) ==> decodes(
                    field_value(fields@, text_of(#[trigger] es[j].0)).unwrap(),
                    es[j].1,
                ),
            budget_entries(es, depth as int, start) == budget_entries(
                es.subrange(i as int, es.len() as int),
                depth as int,
                *remaining as int,
            ),
        decreases entries.len() - i,
    {
        let ghost rest = es.subrange(i as int, es.len() as int);
        assert(rest[0] == es[i as int]);
        assert(rest.subrange(1, rest.len() as int) =~= es.subrange(i + 1, es.len() as int));
        let key = match &entries[i].0 {
            RequestValue::Text(t) => t.as_str().to_owned(),
            _ => return Err("dictionary keys must be strings"),
        };
        proof {
            assert(decreases_to!(*v => v->Dictionary_entries));
            assert(decreases_to!(v->Dictionary_entries => v->Dictionary_entries@));
            assert(decreases_to!(v->Dictionary_entries@ => v->Dictionary_entries@[i as int]));
            assert(decreases_to!(v->Dictionary_entries@[i as int] => v->Dictionary_entries@[i as int].1));
        }
        let ghost before = fields@;
        let w = match decode_request(&entries[i].1, depth, remaining) {
            Ok(w) => w,
            Err(e) => return Err(e),
        };
        let ghost kv = key@;
        assert(kv == text_of(es[i as int].0));
        let ghost wv = w;
        insert_field(&mut fields, key, w);
        proof {
            lemma_entry_added(es, i as int, before, fields@, kv, wv);
        }
        i = i + 1;
    }
    proof {
        assert(es.subrange(i as int, es.len() as int) =~= Seq::<(RequestValue, RequestValue)>::empty());
        assert(es.subrange(0, i as int) =~= es);
    }
    Ok(Wire::Object(fields))
}

} // verus!
