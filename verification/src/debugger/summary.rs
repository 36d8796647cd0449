//! Entity summaries published to the editor: how one is built and sent, which
//! ones a query selects, and what changed between two publications.

use super::wire::{
    assoc_last, entity, entity_ref, field_value, insert_field, key_lt, keys_sorted,
    lemma_key_lt_irreflexive, lemma_key_lt_total, lemma_key_lt_transitive, str_lt, string_member,
    wire_get, Wire,
};
use super::service::{Interval, PageRequest, lists_refs, member_names, ref_before, ref_lt, refs_sorted, sorted_refs};
use crate::text::{contains_text, has_substring, str_eq};
use vstd::prelude::*;

verus! {

/// What the editor's entity list shows of one entity.
#[derive(Debug)]
pub struct Summary {
    /// The entity's bits and generation.
    pub entity: (u64, u32),
    pub name: String,
    /// The parent entity in the scene tree, if any.
    pub parent: Option<(u64, u32)>,
    pub has_node: bool,
    /// The type paths of the entity's components, sorted.
    pub components: Vec<String>,
    /// The components that have no reflection registration, sorted, each once.
    pub unsupported: Vec<String>,
}

/// The views of a list of strings.
pub open spec fn views(s: Seq<String>) -> Seq<Seq<char>> {
    s.map_values(|t: String| t@)
}

/// Sorted, equal strings allowed.
pub open spec fn names_sorted(s: Seq<Seq<char>>) -> bool {
    forall|i: int, j: int| 0 <= i < j < s.len() ==> !key_lt(#[trigger] s[j], #[trigger] s[i])
}

/// Sorted, each string once.
pub open spec fn names_strictly_sorted(s: Seq<Seq<char>>) -> bool {
    forall|i: int, j: int| 0 <= i < j < s.len() ==> key_lt(#[trigger] s[i], #[trigger] s[j])
}

proof fn lemma_views_insert(s: Seq<String>, i: int, x: String)
    requires
        0 <= i <= s.len(),
    ensures
        views(s.insert(i, x)) == views(s).insert(i, x@),
{
    assert(views(s.insert(i, x)) =~= views(s).insert(i, x@));
}

proof fn lemma_views_push(s: Seq<String>, x: String)
    ensures
        views(s.push(x)) == views(s).push(x@),
{
    assert(views(s.push(x)) =~= views(s).push(x@));
}

/// Inserts `x` into sorted strings after every string that sorts before it.
fn insert_sorted(out: &mut Vec<String>, x: String)
    requires
        names_sorted(views(old(out)@)),
    ensures
        names_sorted(views(final(out)@)),
        views(final(out)@).to_multiset() == views(old(out)@).to_multiset().insert(x@),
{
    let ghost before = out@;
    let ghost vb = views(before);
    let mut i: usize = 0;
    while i < out.len() && str_lt(out[i].as_str(), x.as_str())
        invariant
            out@ == before,
            vb == views(before),
            names_sorted(vb),
            i <= out.len(),
            forall|j: int| 0 <= j < i ==> key_lt(#[trigger] vb[j], x@),
        decreases out.len() - i,
    {
        i = i + 1;
    }
    let ghost xv = x@;
    out.insert(i, x);
    proof {
        lemma_views_insert(before, i as int, out@[i as int]);
        let va = views(out@);
        assert(va == vb.insert(i as int, xv));
        vstd::seq_lib::to_multiset_insert(vb, i as int, xv);
        assert forall|a: int, b: int| 0 <= a < b < va.len() implies !key_lt(
            #[trigger] va[b],
            #[trigger] va[a],
        ) by {
            if b < i {
                assert(va[a] == vb[a] && va[b] == vb[b]);
            } else if b == i {
                assert(va[a] == vb[a]);
                if key_lt(xv, vb[a]) {
                    lemma_key_lt_transitive(vb[a], xv, vb[a]);
                    lemma_key_lt_irreflexive(vb[a]);
                }
            } else if a == i {
                assert(va[b] == vb[b - 1]);
                if i < vb.len() {
                    if key_lt(vb[b - 1], xv) {
                        if b - 1 > i {
                            assert(!key_lt(vb[b - 1], vb[i as int]));
                            if vb[i as int] != xv {
                                lemma_key_lt_total(vb[i as int], xv);
                            }
                            if key_lt(vb[i as int], xv) {
                            } else if vb[i as int] == xv {
                            } else {
                                lemma_key_lt_transitive(vb[b - 1], xv, vb[i as int]);
                            }
                        }
                    }
                }
            } else if a < i {
                assert(va[a] == vb[a] && va[b] == vb[b - 1]);
                if key_lt(vb[b - 1], vb[a]) {
                    if b - 1 > a {
                    }
                }
            } else {
                assert(va[a] == vb[a - 1] && va[b] == vb[b - 1]);
            }
        }
    }
}

/// The strings, sorted; the same strings as many times each.
pub fn sort_names(names: Vec<String>) -> (sorted: Vec<String>)
    ensures
        names_sorted(views(sorted@)),
        views(sorted@).to_multiset() == views(names@).to_multiset(),
{
    let ghost all = names@;
    assert(all.len() == names.len());
    let mut rest = names;
    let mut sorted: Vec<String> = Vec::new();
    let mut done: usize = 0;
    assert(views(sorted@) =~= views(all.subrange(0, 0)));
    while rest.len() > 0
        invariant
            done + rest.len() == all.len(),
            all.len() <= usize::MAX,
            rest@ == all.subrange(done as int, all.len() as int),
            names_sorted(views(sorted@)),
            views(sorted@).to_multiset() == views(all.subrange(0, done as int)).to_multiset(),
        decreases rest.len(),
    {
        let x = rest.remove(0);
        proof {
            assert(all.subrange(0, done + 1) =~= all.subrange(0, done as int).push(x));
            lemma_views_push(all.subrange(0, done as int), x);
            vstd::seq_lib::to_multiset_build(views(all.subrange(0, done as int)), x@);
        }
        insert_sorted(&mut sorted, x);
        done = done + 1;
        assert(rest@ =~= all.subrange(done as int, all.len() as int));
    }
    assert(all.subrange(0, done as int) =~= all);
    sorted
}

/// Adds `x` to strictly sorted strings unless it is already there.
fn insert_unique(out: &mut Vec<String>, x: &str)
    requires
        names_strictly_sorted(views(old(out)@)),
    ensures
        names_strictly_sorted(views(final(out)@)),
        views(final(out)@).to_set() == views(old(out)@).to_set().insert(x@),
{
    let ghost before = out@;
    let ghost vb = views(before);
    let mut i: usize = 0;
    while i < out.len() && str_lt(out[i].as_str(), x)
        invariant
            out@ == before,
            vb == views(before),
            names_strictly_sorted(vb),
            i <= out.len(),
            forall|j: int| 0 <= j < i ==> key_lt(#[trigger] vb[j], x@),
        decreases out.len() - i,
    {
        i = i + 1;
    }
    if i < out.len() && str_eq(out[i].as_str(), x) {
        assert(vb.to_set().insert(x@) =~= vb.to_set()) by {
            assert(vb[i as int] == x@);
            assert(vb.to_set().contains(vb[i as int]));
        }
        return;
    }
    proof {
        if i < vb.len() {
            assert(!key_lt(vb[i as int], x@));
            lemma_key_lt_total(vb[i as int], x@);
        }
    }
    let owned = x.to_owned();
    out.insert(i, owned);
    proof {
        lemma_views_insert(before, i as int, out@[i as int]);
        let va = views(out@);
        assert(va == vb.insert(i as int, x@));
        assert forall|a: int, b: int| 0 <= a < b < va.len() implies key_lt(
            #[trigger] va[a],
            #[trigger] va[b],
        ) by {
            if b < i {
                assert(va[a] == vb[a] && va[b] == vb[b]);
            } else if b == i {
                assert(va[a] == vb[a]);
            } else if a == i {
                assert(va[b] == vb[b - 1]);
                if b - 1 > i {
                    lemma_key_lt_transitive(x@, vb[i as int], vb[b - 1]);
                }
            } else if a < i {
                assert(va[a] == vb[a] && va[b] == vb[b - 1]);
            } else {
                assert(va[a] == vb[a - 1] && va[b] == vb[b - 1]);
            }
        }
        assert forall|y: Seq<char>| va.to_set().contains(y) <==> vb.to_set().insert(
            x@,
        ).contains(y) by {
            if va.contains(y) {
                let k = choose|k: int| 0 <= k < va.len() && va[k] == y;
                if k < i {
                    assert(vb[k] == y);
                } else if k > i {
                    assert(vb[k - 1] == y);
                }
            }
            if vb.contains(y) {
                let k = choose|k: int| 0 <= k < vb.len() && vb[k] == y;
                if k < i {
                    assert(va[k] == y);
                } else {
                    assert(va[k + 1] == y);
                }
            }
            if y == x@ {
                assert(va[i as int] == x@);
            }
        }
        assert(va.to_set() =~= vb.to_set().insert(x@));
    }
}

/// The names of the components that have no reflection registration, the node
/// handle excepted.
pub open spec fn unregistered(components: Seq<(String, bool)>, handle: Seq<char>) -> Set<
    Seq<char>,
> {
    Set::new(
        |n: Seq<char>|
            exists|i: int|
                0 <= i < components.len() && components[i].0@ == n && !components[i].1 && n
                    != handle,
    )
}

/// The component names of a list of components.
pub open spec fn component_names(components: Seq<(String, bool)>) -> Seq<Seq<char>> {
    components.map_values(|c: (String, bool)| c.0@)
}

impl Summary {
    /// The summary of an entity from its components, each with whether reflection
    /// knows it. Names are sorted; those without a registration are listed as
    /// unsupported, except the node handle, which is shown by other means.
    pub fn of(
        entity: (u64, u32),
        name: String,
        parent: Option<(u64, u32)>,
        has_node: bool,
        components: Vec<(String, bool)>,
        node_handle_type: &str,
    ) -> (s: Summary)
        ensures
            s.entity == entity,
            s.name@ == name@,
            s.parent == parent,
            s.has_node == has_node,
            names_sorted(views(s.components@)),
            views(s.components@).to_multiset() == component_names(components@).to_multiset(),
            names_strictly_sorted(views(s.unsupported@)),
            views(s.unsupported@).to_set() == unregistered(components@, node_handle_type@),
    {
        let ghost all = components@;
        let mut names: Vec<String> = Vec::new();
        let mut unsupported: Vec<String> = Vec::new();
        let mut i: usize = 0;
        while i < components.len()
            invariant
                all == components@,
                i <= components.len(),
                views(names@) == component_names(all.subrange(0, i as int)),
                names_strictly_sorted(views(unsupported@)),
                views(unsupported@).to_set() == unregistered(
                    all.subrange(0, i as int),
                    node_handle_type@,
                ),
            decreases components.len() - i,
        {
            let n = components[i].0.as_str();
            let registered = components[i].1;
            let ghost prev = all.subrange(0, i as int);
            let ghost next = all.subrange(0, i + 1);
            assert(next =~= prev.push(all[i as int]));
            if !registered && !str_eq(n, node_handle_type) {
                insert_unique(&mut unsupported, n);
            }
            proof {
                assert(unregistered(next, node_handle_type@) =~= if !all[i as int].1
                    && all[i as int].0@ != node_handle_type@ {
                    unregistered(prev, node_handle_type@).insert(all[i as int].0@)
                } else {
                    unregistered(prev, node_handle_type@)
                }) by {
                    assert forall|m: Seq<char>| #[trigger]
                        unregistered(next, node_handle_type@).contains(m) implies (if !all[
                        i as int].1 && all[i as int].0@ != node_handle_type@ {
                        unregistered(prev, node_handle_type@).insert(all[i as int].0@)
                    } else {
                        unregistered(prev, node_handle_type@)
                    }).contains(m) by {
                        let k = choose|k: int|
                            0 <= k < next.len() && next[k].0@ == m && !next[k].1 && m
                                != node_handle_type@;
                        if k < i {
                            assert(prev[k] == next[k]);
                        }
                    }
                    assert forall|m: Seq<char>| #[trigger]
                        unregistered(prev, node_handle_type@).contains(m) implies unregistered(
                        next,
                        node_handle_type@,
                    ).contains(m) by {
                        let k = choose|k: int|
                            0 <= k < prev.len() && prev[k].0@ == m && !prev[k].1 && m
                                != node_handle_type@;
                        assert(next[k] == prev[k]);
                    }
                    if !all[i as int].1 && all[i as int].0@ != node_handle_type@ {
                        assert(next[i as int] == all[i as int]);
                    }
                }
            }
            let ghost before = names@;
            names.push(n.to_owned());
            proof {
                lemma_views_push(before, names@[i as int]);
                assert(component_names(next) =~= component_names(prev).push(all[i as int].0@));
            }
            i = i + 1;
        }
        assert(all.subrange(0, i as int) =~= all);
        let sorted = sort_names(names);
        Summary {
            entity,
            name,
            parent,
            has_node,
            components: sorted,
            unsupported,
        }
    }
}

/// The items are the strings, in order.
pub open spec fn lists_strings(items: Seq<Wire>, names: Seq<Seq<char>>) -> bool {
    &&& items.len() == names.len()
    &&& forall|i: int| 0 <= i < items.len() ==> (#[trigger] items[i] matches Wire::String(t) && t@ == names[i])
}

/// An array of strings.
pub fn string_list(names: &Vec<String>) -> (items: Vec<Wire>)
    ensures
        lists_strings(items@, views(names@)),
{
    let mut items: Vec<Wire> = Vec::new();
    let mut i: usize = 0;
    while i < names.len()
        invariant
            i <= names.len(),
            items@.len() == i,
            forall|j: int|
                0 <= j < i ==> (#[trigger] items@[j] matches Wire::String(t) && t@ == names@[j]@),
        decreases names.len() - i,
    {
        items.push(Wire::String(names[i].as_str().to_owned()));
        i = i + 1;
    }
    items
}

/// The reason shown for a component without a reflection registration.
pub open spec fn not_registered_text() -> Seq<char> {
    "component not registered"@
}

/// An object with one member per name, each the text `component not registered`.
pub open spec fn unsupported_object(w: Wire, names: Set<Seq<char>>) -> bool {
    &&& w matches Wire::Object(fields) && keys_sorted(fields@)
    &&& forall|k: Seq<char>| #[trigger]
        wire_get(w, k) is Some <==> names.contains(k)
    &&& forall|k: Seq<char>| #[trigger]
        names.contains(k) ==> string_member(w, k) == Some(not_registered_text())
}

fn unsupported_wire(names: &Vec<String>) -> (w: Wire)
    ensures
        unsupported_object(w, views(names@).to_set()),
{
    let mut fields: Vec<(String, Wire)> = Vec::new();
    let mut i: usize = 0;
    proof {
        reveal_strlit("component not registered");
    }
    while i < names.len()
        invariant
            i <= names.len(),
            keys_sorted(fields@),
            forall|k: Seq<char>| #[trigger]
                field_value(fields@, k) is Some <==> views(names@).subrange(0, i as int).contains(k),
            forall|k: Seq<char>| #[trigger]
                views(names@).subrange(0, i as int).contains(k) ==> (field_value(fields@, k) matches Some(
                    Wire::String(t),
                ) && t@ == not_registered_text()),
        decreases names.len() - i,
    {
        let ghost prev = views(names@).subrange(0, i as int);
        let ghost next = views(names@).subrange(0, i + 1);
        assert(next =~= prev.push(names@[i as int]@));
        insert_field(
            &mut fields,
            names[i].as_str().to_owned(),
            Wire::String("component not registered".to_owned()),
        );
        proof {
            assert forall|k: Seq<char>| #[trigger] next.contains(k) <==> (prev.contains(k) || k
                == names@[i as int]@) by {
                if next.contains(k) {
                    let j = choose|j: int| 0 <= j < next.len() && next[j] == k;
                    if j < i {
                        assert(prev[j] == k);
                    }
                }
                if prev.contains(k) {
                    let j = choose|j: int| 0 <= j < prev.len() && prev[j] == k;
                    assert(next[j] == k);
                }
                if k == names@[i as int]@ {
                    assert(next[i as int] == k);
                }
            }
        }
        i = i + 1;
    }
    let w = Wire::Object(fields);
    proof {
        assert(views(names@).subrange(0, i as int) =~= views(names@));
        assert forall|k: Seq<char>| #[trigger] wire_get(w, k) is Some <==> views(
            names@,
        ).to_set().contains(k) by {
            assert(wire_get(w, k) == field_value(fields@, k));
        }
        assert forall|k: Seq<char>| #[trigger] views(names@).to_set().contains(k) implies string_member(
            w,
            k,
        ) == Some(not_registered_text()) by {
            assert(wire_get(w, k) == field_value(fields@, k));
        }
    }
    w
}

/// The transport form of a reference, or null for none.
pub open spec fn optional_ref(w: Wire, r: Option<(u64, u32)>) -> bool {
    match r {
        Some(e) => entity_ref(w, e.0, e.1),
        None => w == Wire::Null,
    }
}

/// The transport form of a summary: `{entity, name, parent, has_node, components,
/// unsupported_components}`.
pub open spec fn summary_wire(w: Wire, s: Summary) -> bool {
    &&& w matches Wire::Object(fields) && keys_sorted(fields@)
    &&& member_names(w) == set![
        "entity"@,
        "name"@,
        "parent"@,
        "has_node"@,
        "components"@,
        "unsupported_components"@,
    ]
    &&& wire_get(w, "entity"@) matches Some(e) && entity_ref(e, s.entity.0, s.entity.1)
    &&& string_member(w, "name"@) == Some(s.name@)
    &&& wire_get(w, "parent"@) matches Some(p) && optional_ref(p, s.parent)
    &&& wire_get(w, "has_node"@) == Some(Wire::Bool(s.has_node))
    &&& wire_get(w, "components"@) matches Some(Wire::Array(items)) && lists_strings(
        items@,
        views(s.components@),
    )
    &&& wire_get(w, "unsupported_components"@) matches Some(u) && unsupported_object(
        u,
        views(s.unsupported@).to_set(),
    )
}

impl Summary {
    /// The transport form of this summary.
    pub fn to_wire(&self) -> (w: Wire)
        ensures
            summary_wire(w, *self),
    {
        let (bits, generation) = self.entity;
        let parent = match self.parent {
            Some((pb, pg)) => entity(pb, pg),
            None => Wire::Null,
        };
        let pairs = vec![
            ("entity", entity(bits, generation)),
            ("name", Wire::String(self.name.as_str().to_owned())),
            ("parent", parent),
            ("has_node", Wire::Bool(self.has_node)),
            ("components", Wire::Array(string_list(&self.components))),
            ("unsupported_components", unsupported_wire(&self.unsupported)),
        ];
        let ghost p = pairs@;
        let w = Wire::object(pairs);
        proof {
            reveal_strlit("entity");
            reveal_strlit("name");
            reveal_strlit("parent");
            reveal_strlit("has_node");
            reveal_strlit("components");
            reveal_strlit("unsupported_components");
            reveal_with_fuel(assoc_last, 7);
            assert("entity"@[0] != "parent"@[0]);
            assert(wire_get(w, "entity"@) == assoc_last(p, "entity"@));
            assert(wire_get(w, "name"@) == assoc_last(p, "name"@));
            assert(wire_get(w, "parent"@) == assoc_last(p, "parent"@));
            assert(wire_get(w, "has_node"@) == assoc_last(p, "has_node"@));
            assert(wire_get(w, "components"@) == assoc_last(p, "components"@));
            assert(wire_get(w, "unsupported_components"@) == assoc_last(
                p,
                "unsupported_components"@,
            ));
            assert forall|k: Seq<char>| #[trigger] member_names(w).contains(k) <==> set![
                "entity"@,
                "name"@,
                "parent"@,
                "has_node"@,
                "components"@,
                "unsupported_components"@,
            ].contains(k) by {
                assert(wire_get(w, k) == assoc_last(p, k));
            }
            assert(member_names(w) =~= set![
                "entity"@,
                "name"@,
                "parent"@,
                "has_node"@,
                "components"@,
                "unsupported_components"@,
            ]);
        }
        w
    }
}

/// Summaries ordered by entity, each entity once.
pub open spec fn entities_sorted(s: Seq<Summary>) -> bool {
    forall|i: int, j: int|
        0 <= i < j < s.len() ==> ref_lt(#[trigger] s[i].entity, #[trigger] s[j].entity)
}

/// The position of `key` among summaries.
pub open spec fn holds_entity(s: Seq<Summary>, key: (u64, u32), i: int) -> bool {
    0 <= i < s.len() && s[i].entity == key
}

/// The summaries as a map from entity to summary.
pub open spec fn summary_map(s: Seq<Summary>) -> Map<(u64, u32), Summary> {
    Map::new(
        |k: (u64, u32)| exists|i: int| #[trigger] holds_entity(s, k, i),
        |k: (u64, u32)| s[choose|i: int| #[trigger] holds_entity(s, k, i)],
    )
}

proof fn lemma_ref_lt_irreflexive(a: (u64, u32))
    ensures
        !ref_lt(a, a),
{
}

/// In sorted summaries, the summary of an entity is the one at its position.
proof fn lemma_sorted_lookup(s: Seq<Summary>, i: int)
    requires
        entities_sorted(s),
        0 <= i < s.len(),
    ensures
        summary_map(s).contains_key(s[i].entity),
        summary_map(s)[s[i].entity] == s[i],
{
    assert(holds_entity(s, s[i].entity, i));
    let c = choose|c: int| #[trigger] holds_entity(s, s[i].entity, c);
    if c < i {
        assert(ref_lt(s[c].entity, s[i].entity));
    } else if c > i {
        assert(ref_lt(s[i].entity, s[c].entity));
    }
}

/// The summaries of the entities a subscriber knows, by entity.
#[derive(Debug)]
pub struct SummaryMap {
    pub entries: Vec<Summary>,
}

impl SummaryMap {
    /// Entries ordered by entity, each entity once.
    pub open spec fn wf(&self) -> bool {
        entities_sorted(self.entries@)
    }

    /// The summary of each entity.
    pub open spec fn view(&self) -> Map<(u64, u32), Summary> {
        summary_map(self.entries@)
    }

    /// No summaries.
    pub fn new() -> (m: Self)
        ensures
            m.wf(),
            m@ == Map::<(u64, u32), Summary>::empty(),
    {
        let m = SummaryMap { entries: Vec::new() };
        assert(m@ =~= Map::<(u64, u32), Summary>::empty());
        m
    }

    /// The first position whose entity does not sort before `key`.
    fn position(&self, key: (u64, u32)) -> (i: usize)
        requires
            self.wf(),
        ensures
            i <= self.entries@.len(),
            forall|j: int| 0 <= j < i ==> ref_lt(#[trigger] self.entries@[j].entity, key),
            i < self.entries@.len() ==> !ref_lt(self.entries@[i as int].entity, key),
    {
        let mut i: usize = 0;
        while i < self.entries.len() && ref_before(self.entries[i].entity, key)
            invariant
                i <= self.entries@.len(),
                forall|j: int| 0 <= j < i ==> ref_lt(#[trigger] self.entries@[j].entity, key),
            decreases self.entries.len() - i,
        {
            i = i + 1;
        }
        i
    }

    /// The summary of `key`, if known.
    pub fn get(&self, key: (u64, u32)) -> (s: Option<&Summary>)
        requires
            self.wf(),
        ensures
            s is Some <==> self@.contains_key(key),
            s matches Some(v) ==> *v == self@[key],
    {
        let i = self.position(key);
        if i < self.entries.len() && self.entries[i].entity.0 == key.0 && self.entries[i].entity.1
            == key.1 {
            proof {
                lemma_sorted_lookup(self.entries@, i as int);
            }
            Some(&self.entries[i])
        } else {
            proof {
                if self@.contains_key(key) {
                    let c = choose|c: int| #[trigger] holds_entity(self.entries@, key, c);
                    if c < i {
                        lemma_ref_lt_irreflexive(key);
                    } else if c > i {
                        assert(ref_lt(self.entries@[i as int].entity, self.entries@[c].entity));
                    }
                }
            }
            None
        }
    }

    /// Sets the summary of its entity; answers whether the entity was known.
    pub fn insert(&mut self, s: Summary) -> (was_known: bool)
        requires
            old(self).wf(),
        ensures
            final(self).wf(),
            final(self)@ == old(self)@.insert(s.entity, s),
            was_known == old(self)@.contains_key(s.entity),
    {
        let ghost before = self.entries@;
        let ghost key = s.entity;
        let i = self.position(s.entity);
        if i < self.entries.len() && self.entries[i].entity.0 == s.entity.0
            && self.entries[i].entity.1 == s.entity.1 {
            proof {
                lemma_sorted_lookup(before, i as int);
            }
            self.entries.set(i, s);
            proof {
                let after = self.entries@;
                assert(entities_sorted(after)) by {
                    assert forall|a: int, b: int| 0 <= a < b < after.len() implies ref_lt(
                        #[trigger] after[a].entity,
                        #[trigger] after[b].entity,
                    ) by {
                        assert(after[a].entity == before[a].entity);
                        assert(after[b].entity == before[b].entity);
                    }
                }
                self.lemma_replaced(before, i as int);
            }
            true
        } else {
            proof {
                if summary_map(before).contains_key(key) {
                    let c = choose|c: int| #[trigger] holds_entity(before, key, c);
                    if c < i {
                        lemma_ref_lt_irreflexive(key);
                    } else if c > i {
                        assert(ref_lt(before[i as int].entity, before[c].entity));
                    }
                }
            }
            self.entries.insert(i, s);
            proof {
                let after = self.entries@;
                assert(after.len() == before.len() + 1);
                assert forall|p: int| 0 <= p < after.len() implies #[trigger] after[p] == (if p
                    < i {
                    before[p]
                } else if p == i {
                    after[p]
                } else {
                    before[p - 1]
                }) by {}
                assert(after[i as int].entity == key);
                assert forall|a: int, b: int| 0 <= a < b < after.len() implies ref_lt(
                    #[trigger] after[a].entity,
                    #[trigger] after[b].entity,
                ) by {
                    if b < i {
                        assert(ref_lt(before[a].entity, before[b].entity));
                    } else if b == i {
                        assert(ref_lt(before[a].entity, key));
                    } else if a == i {
                        if i < before.len() {
                            assert(!ref_lt(before[i as int].entity, key));
                            assert(before[i as int].entity != key);
                            if b - 1 > i {
                                assert(ref_lt(before[i as int].entity, before[b - 1].entity));
                            }
                        }
                    } else if a < i {
                        assert(ref_lt(before[a].entity, before[b - 1].entity));
                    } else {
                        assert(ref_lt(before[a - 1].entity, before[b - 1].entity));
                    }
                }
                assert(summary_map(after) =~= summary_map(before).insert(key, after[i as int]))
                    by {
                    assert forall|k: (u64, u32)| #[trigger]
                        summary_map(after).contains_key(k) <==> summary_map(before).insert(
                            key,
                            after[i as int],
                        ).contains_key(k) by {
                        if summary_map(after).contains_key(k) {
                            let c = choose|c: int| #[trigger] holds_entity(after, k, c);
                            if c < i {
                                assert(holds_entity(before, k, c));
                            } else if c > i {
                                assert(holds_entity(before, k, c - 1));
                            }
                        }
                        if summary_map(before).contains_key(k) {
                            let c = choose|c: int| #[trigger] holds_entity(before, k, c);
                            if c < i {
                                assert(holds_entity(after, k, c));
                            } else {
                                assert(holds_entity(after, k, c + 1));
                            }
                        }
                        if k == key {
                            assert(holds_entity(after, k, i as int));
                        }
                    }
                    assert forall|k: (u64, u32)| #[trigger]
                        summary_map(after).contains_key(k) implies summary_map(after)[k]
                        == summary_map(before).insert(key, after[i as int])[k] by {
                        let c = choose|c: int| #[trigger] holds_entity(after, k, c);
                        lemma_sorted_lookup(after, c);
                        if c < i {
                            lemma_sorted_lookup(before, c);
                        } else if c > i {
                            lemma_sorted_lookup(before, c - 1);
                        }
                    }
                }
            }
            false
        }
    }

    proof fn lemma_replaced(&self, before: Seq<Summary>, i: int)
        requires
            entities_sorted(before),
            entities_sorted(self.entries@),
            0 <= i < before.len(),
            self.entries@ == before.update(i, self.entries@[i]),
            self.entries@[i].entity == before[i].entity,
        ensures
            self@ == summary_map(before).insert(before[i].entity, self.entries@[i]),
    {
        let after = self.entries@;
        let key = before[i].entity;
        assert forall|k: (u64, u32)| #[trigger]
            summary_map(after).contains_key(k) <==> summary_map(before).contains_key(k) by {
            if summary_map(after).contains_key(k) {
                let c = choose|c: int| #[trigger] holds_entity(after, k, c);
                assert(holds_entity(before, k, c));
            }
            if summary_map(before).contains_key(k) {
                let c = choose|c: int| #[trigger] holds_entity(before, k, c);
                assert(holds_entity(after, k, c));
            }
        }
        lemma_sorted_lookup(before, i);
        assert forall|k: (u64, u32)| #[trigger]
            summary_map(after).contains_key(k) implies summary_map(after)[k] == summary_map(
            before,
        ).insert(key, after[i])[k] by {
            let c = choose|c: int| #[trigger] holds_entity(after, k, c);
            lemma_sorted_lookup(after, c);
            lemma_sorted_lookup(before, c);
        }
        assert(summary_map(after) =~= summary_map(before).insert(key, after[i]));
    }

    /// Forgets the summary of `key`; answers whether it was known.
    pub fn remove(&mut self, key: (u64, u32)) -> (was_known: bool)
        requires
            old(self).wf(),
        ensures
            final(self).wf(),
            final(self)@ == old(self)@.remove(key),
            was_known == old(self)@.contains_key(key),
    {
        let ghost before = self.entries@;
        let i = self.position(key);
        if i < self.entries.len() && self.entries[i].entity.0 == key.0 && self.entries[i].entity.1
            == key.1 {
            proof {
                lemma_sorted_lookup(before, i as int);
            }
            let _ = self.entries.remove(i);
            proof {
                let after = self.entries@;
                assert forall|p: int| 0 <= p < after.len() implies #[trigger] after[p] == (if p
                    < i {
                    before[p]
                } else {
                    before[p + 1]
                }) by {}
                assert forall|a: int, b: int| 0 <= a < b < after.len() implies ref_lt(
                    #[trigger] after[a].entity,
                    #[trigger] after[b].entity,
                ) by {
                    if b < i {
                        assert(ref_lt(before[a].entity, before[b].entity));
                    } else if a < i {
                        assert(ref_lt(before[a].entity, before[b + 1].entity));
                    } else {
                        assert(ref_lt(before[a + 1].entity, before[b + 1].entity));
                    }
                }
                assert(summary_map(after) =~= summary_map(before).remove(key)) by {
                    assert forall|k: (u64, u32)| #[trigger]
                        summary_map(after).contains_key(k) <==> summary_map(before).remove(
                            key,
                        ).contains_key(k) by {
                        if summary_map(after).contains_key(k) {
                            let c = choose|c: int| #[trigger] holds_entity(after, k, c);
                            if c < i {
                                assert(holds_entity(before, k, c));
                                assert(ref_lt(before[c].entity, before[i as int].entity));
                            } else {
                                assert(holds_entity(before, k, c + 1));
                                assert(ref_lt(before[i as int].entity, before[c + 1].entity));
                            }
                        }
                        if summary_map(before).contains_key(k) && k != key {
                            let c = choose|c: int| #[trigger] holds_entity(before, k, c);
                            if c < i {
                                assert(holds_entity(after, k, c));
                            } else {
                                assert(c != i);
                                assert(holds_entity(after, k, c - 1));
                            }
                        }
                    }
                    assert forall|k: (u64, u32)| #[trigger]
                        summary_map(after).contains_key(k) implies summary_map(after)[k]
                        == summary_map(before).remove(key)[k] by {
                        let c = choose|c: int| #[trigger] holds_entity(after, k, c);
                        lemma_sorted_lookup(after, c);
                        if c < i {
                            lemma_sorted_lookup(before, c);
                        } else {
                            lemma_sorted_lookup(before, c + 1);
                        }
                    }
                }
            }
            true
        } else {
            proof {
                if summary_map(before).contains_key(key) {
                    let c = choose|c: int| #[trigger] holds_entity(before, key, c);
                    if c < i {
                        lemma_ref_lt_irreflexive(key);
                    } else if c > i {
                        assert(ref_lt(before[i as int].entity, before[c].entity));
                    }
                }
                assert(summary_map(before).remove(key) =~= summary_map(before));
            }
            false
        }
    }
}

/// A change to publish: an entity with its current summary, or with none once it
/// is gone.
pub type Change = ((u64, u32), Option<Summary>);

/// Each present summary is that of the entity it is given for.
pub open spec fn changes_consistent(cs: Seq<Change>) -> bool {
    forall|i: int| 0 <= i < cs.len() ==> (#[trigger] cs[i].1 matches Some(s) ==> s.entity == cs[i].0)
}

/// The known summaries after the changes, taken in order.
pub open spec fn after_changes(m: Map<(u64, u32), Summary>, cs: Seq<Change>) -> Map<
    (u64, u32),
    Summary,
>
    decreases cs.len(),
{
    if cs.len() == 0 {
        m
    } else {
        let before = after_changes(m, cs.drop_last());
        let c = cs.last();
        match c.1 {
            Some(s) => before.insert(c.0, s),
            None => before.remove(c.0),
        }
    }
}

/// The summaries of entities that the changes make known for the first time.
pub open spec fn added_of(m: Map<(u64, u32), Summary>, cs: Seq<Change>) -> Seq<Summary>
    decreases cs.len(),
{
    if cs.len() == 0 {
        Seq::empty()
    } else {
        let earlier = added_of(m, cs.drop_last());
        let before = after_changes(m, cs.drop_last());
        let c = cs.last();
        match c.1 {
            Some(s) => if before.contains_key(c.0) {
                earlier
            } else {
                earlier.push(s)
            },
            None => earlier,
        }
    }
}

/// The new summaries of known entities whose name or parent the changes alter.
pub open spec fn updated_of(m: Map<(u64, u32), Summary>, cs: Seq<Change>) -> Seq<Summary>
    decreases cs.len(),
{
    if cs.len() == 0 {
        Seq::empty()
    } else {
        let earlier = updated_of(m, cs.drop_last());
        let before = after_changes(m, cs.drop_last());
        let c = cs.last();
        match c.1 {
            Some(s) => if before.contains_key(c.0) && (before[c.0].name@ != s.name@
                || before[c.0].parent != s.parent) {
                earlier.push(s)
            } else {
                earlier
            },
            None => earlier,
        }
    }
}

/// The known entities that the changes report gone.
pub open spec fn removed_of(m: Map<(u64, u32), Summary>, cs: Seq<Change>) -> Seq<(u64, u32)>
    decreases cs.len(),
{
    if cs.len() == 0 {
        Seq::empty()
    } else {
        let earlier = removed_of(m, cs.drop_last());
        let before = after_changes(m, cs.drop_last());
        let c = cs.last();
        match c.1 {
            Some(_) => earlier,
            None => if before.contains_key(c.0) {
                earlier.push(c.0)
            } else {
                earlier
            },
        }
    }
}

/// The items are the transport forms of the summaries, in order.
pub open spec fn lists_summaries(items: Seq<Wire>, s: Seq<Summary>) -> bool {
    &&& items.len() == s.len()
    &&& forall|i: int| 0 <= i < items.len() ==> summary_wire(#[trigger] items[i], s[i])
}

/// What changed since the last publication, in transport form.
#[derive(Debug)]
pub struct Delta {
    pub added: Vec<Wire>,
    pub removed: Vec<Wire>,
    pub updated: Vec<Wire>,
}

fn same_parent(a: Option<(u64, u32)>, b: Option<(u64, u32)>) -> (same: bool)
    ensures
        same == (a == b),
{
    match (a, b) {
        (Some(x), Some(y)) => x.0 == y.0 && x.1 == y.1,
        (None, None) => true,
        _ => false,
    }
}

impl SummaryMap {
    /// Takes in the changes in order: a present summary replaces what was known
    /// of its entity, an absent one forgets the entity. Reports the entities
    /// seen for the first time, those whose name or parent changed, and the
    /// known ones that are gone.
    pub fn apply(&mut self, changes: Vec<Change>) -> (delta: Delta)
        requires
            old(self).wf(),
            changes_consistent(changes@),
        ensures
            final(self).wf(),
            final(self)@ == after_changes(old(self)@, changes@),
            lists_summaries(delta.added@, added_of(old(self)@, changes@)),
            lists_summaries(delta.updated@, updated_of(old(self)@, changes@)),
            lists_refs(delta.removed@, removed_of(old(self)@, changes@)),
    {
        let ghost m0 = self@;
        let ghost all = changes@;
        assert(all.len() == changes.len());
        let mut rest = changes;
        let mut added: Vec<Wire> = Vec::new();
        let mut removed: Vec<Wire> = Vec::new();
        let mut updated: Vec<Wire> = Vec::new();
        let mut done: usize = 0;
        assert(all.subrange(0, 0) =~= Seq::<Change>::empty());
        while rest.len() > 0
            invariant
                done + rest.len() == all.len(),
                all.len() <= usize::MAX,
                rest@ == all.subrange(done as int, all.len() as int),
                changes_consistent(all),
                self.wf(),
                self@ == after_changes(m0, all.subrange(0, done as int)),
                lists_summaries(added@, added_of(m0, all.subrange(0, done as int))),
                lists_summaries(updated@, updated_of(m0, all.subrange(0, done as int))),
                lists_refs(removed@, removed_of(m0, all.subrange(0, done as int))),
            decreases rest.len(),
        {
            let (key, current) = rest.remove(0);
            let ghost prefix = all.subrange(0, done as int);
            let ghost next = all.subrange(0, done + 1);
            assert(next.drop_last() =~= prefix);
            assert(next.last() == all[done as int]);
            assert(all[done as int] == (key, current));
            match current {
                Some(cur) => {
                    assert(cur.entity == key);
                    let decision = match self.get(key) {
                        None => 0u8,
                        Some(previous) => {
                            if !str_eq(previous.name.as_str(), cur.name.as_str()) || !same_parent(
                                previous.parent,
                                cur.parent,
                            ) {
                                1u8
                            } else {
                                2u8
                            }
                        },
                    };
                    if decision == 0 {
                        added.push(cur.to_wire());
                    } else if decision == 1 {
                        updated.push(cur.to_wire());
                    }
                    let _ = self.insert(cur);
                },
                None => {
                    if self.remove(key) {
                        let (bits, generation) = key;
                        removed.push(entity(bits, generation));
                    }
                },
            }
            done = done + 1;
            assert(rest@ =~= all.subrange(done as int, all.len() as int));
        }
        assert(all.subrange(0, done as int) =~= all);
        Delta { added, removed, updated }
    }
}

/// The parameters of a `godot.summary` notification.
pub open spec fn summary_params(
    w: Wire,
    snapshot: bool,
    added: Seq<Wire>,
    removed: Seq<Wire>,
    updated: Seq<Wire>,
) -> bool {
    &&& w matches Wire::Object(fields) && keys_sorted(fields@)
    &&& member_names(w) == set!["snapshot"@, "added"@, "removed"@, "updated"@]
    &&& wire_get(w, "snapshot"@) == Some(Wire::Bool(snapshot))
    &&& wire_get(w, "added"@) matches Some(Wire::Array(a)) && a@ == added
    &&& wire_get(w, "removed"@) matches Some(Wire::Array(r)) && r@ == removed
    &&& wire_get(w, "updated"@) matches Some(Wire::Array(u)) && u@ == updated
}

/// A JSON-RPC notification of method `godot.summary` with these parameters.
pub open spec fn summary_notification(w: Wire, params: Wire) -> bool {
    &&& w matches Wire::Object(fields) && keys_sorted(fields@)
    &&& member_names(w) == set!["jsonrpc"@, "method"@, "params"@]
    &&& string_member(w, "jsonrpc"@) == Some("2.0"@)
    &&& string_member(w, "method"@) == Some("godot.summary"@)
    &&& wire_get(w, "params"@) == Some(params)
}

/// The `godot.summary` notification of a publication.
pub fn notification(snapshot: bool, added: Vec<Wire>, removed: Vec<Wire>, updated: Vec<Wire>) -> (w:
    Wire)
    ensures
        wire_get(w, "params"@) matches Some(p) && summary_notification(w, p) && summary_params(
            p,
            snapshot,
            added@,
            removed@,
            updated@,
        ),
{
    let ghost (a, r, u) = (added@, removed@, updated@);
    let inner = vec![
        ("snapshot", Wire::Bool(snapshot)),
        ("added", Wire::Array(added)),
        ("removed", Wire::Array(removed)),
        ("updated", Wire::Array(updated)),
    ];
    let ghost ip = inner@;
    let params = Wire::object(inner);
    let outer = vec![
        ("jsonrpc", Wire::String("2.0".to_owned())),
        ("method", Wire::String("godot.summary".to_owned())),
        ("params", params),
    ];
    let ghost op = outer@;
    let w = Wire::object(outer);
    proof {
        reveal_strlit("snapshot");
        reveal_strlit("added");
        reveal_strlit("removed");
        reveal_strlit("updated");
        reveal_strlit("jsonrpc");
        reveal_strlit("method");
        reveal_strlit("params");
        reveal_strlit("2.0");
        reveal_strlit("godot.summary");
        reveal_with_fuel(assoc_last, 5);
        assert("removed"@[0] != "updated"@[0]);
        assert("jsonrpc"@[0] != "method"@[0]);
        assert(wire_get(params, "snapshot"@) == assoc_last(ip, "snapshot"@));
        assert(wire_get(params, "added"@) == assoc_last(ip, "added"@));
        assert(wire_get(params, "removed"@) == assoc_last(ip, "removed"@));
        assert(wire_get(params, "updated"@) == assoc_last(ip, "updated"@));
        assert forall|k: Seq<char>| #[trigger] member_names(params).contains(k) <==> set![
            "snapshot"@,
            "added"@,
            "removed"@,
            "updated"@,
        ].contains(k) by {
            assert(wire_get(params, k) == assoc_last(ip, k));
        }
        assert(member_names(params) =~= set!["snapshot"@, "added"@, "removed"@, "updated"@]);
        assert(wire_get(w, "jsonrpc"@) == assoc_last(op, "jsonrpc"@));
        assert(wire_get(w, "method"@) == assoc_last(op, "method"@));
        assert(wire_get(w, "params"@) == assoc_last(op, "params"@));
        assert forall|k: Seq<char>| #[trigger] member_names(w).contains(k) <==> set![
            "jsonrpc"@,
            "method"@,
            "params"@,
        ].contains(k) by {
            assert(wire_get(w, k) == assoc_last(op, k));
        }
        assert(member_names(w) =~= set!["jsonrpc"@, "method"@, "params"@]);
    }
    w
}

/// The parameters that end a subscription: `{reason, subscription_ended: true}`.
pub open spec fn ended_params(w: Wire, reason: Seq<char>) -> bool {
    &&& w matches Wire::Object(fields) && keys_sorted(fields@)
    &&& member_names(w) == set!["subscription_ended"@, "reason"@]
    &&& wire_get(w, "subscription_ended"@) == Some(Wire::Bool(true))
    &&& string_member(w, "reason"@) == Some(reason)
}

/// The `godot.summary` notification that ends a subscription when the debugger
/// is disabled.
pub fn ended_notification() -> (w: Wire)
    ensures
        wire_get(w, "params"@) matches Some(p) && summary_notification(w, p) && ended_params(
            p,
            "debugger disabled"@,
        ),
{
    let inner = vec![
        ("subscription_ended", Wire::Bool(true)),
        ("reason", Wire::String("debugger disabled".to_owned())),
    ];
    let ghost ip = inner@;
    let params = Wire::object(inner);
    let outer = vec![
        ("jsonrpc", Wire::String("2.0".to_owned())),
        ("method", Wire::String("godot.summary".to_owned())),
        ("params", params),
    ];
    let ghost op = outer@;
    let w = Wire::object(outer);
    proof {
        reveal_strlit("subscription_ended");
        reveal_strlit("reason");
        reveal_strlit("debugger disabled");
        reveal_strlit("jsonrpc");
        reveal_strlit("method");
        reveal_strlit("params");
        reveal_strlit("2.0");
        reveal_strlit("godot.summary");
        reveal_with_fuel(assoc_last, 5);
        assert("jsonrpc"@[0] != "method"@[0]);
        assert("subscription_ended"@[0] != "reason"@[0]);
        assert(wire_get(params, "subscription_ended"@) == assoc_last(ip, "subscription_ended"@));
        assert(wire_get(params, "reason"@) == assoc_last(ip, "reason"@));
        assert forall|k: Seq<char>| #[trigger] member_names(params).contains(k) <==> set![
            "subscription_ended"@,
            "reason"@,
        ].contains(k) by {
            assert(wire_get(params, k) == assoc_last(ip, k));
        }
        assert(member_names(params) =~= set!["subscription_ended"@, "reason"@]);
        assert(wire_get(w, "jsonrpc"@) == assoc_last(op, "jsonrpc"@));
        assert(wire_get(w, "method"@) == assoc_last(op, "method"@));
        assert(wire_get(w, "params"@) == assoc_last(op, "params"@));
        assert forall|k: Seq<char>| #[trigger] member_names(w).contains(k) <==> set![
            "jsonrpc"@,
            "method"@,
            "params"@,
        ].contains(k) by {
            assert(wire_get(w, k) == assoc_last(op, k));
        }
        assert(member_names(w) =~= set!["jsonrpc"@, "method"@, "params"@]);
    }
    w
}

impl Delta {
    /// The notification of this change, sent only when something changed.
    pub fn into_notification(self) -> (w: Option<Wire>)
        ensures
            w is Some <==> (self.added@.len() > 0 || self.removed@.len() > 0
                || self.updated@.len() > 0),
            w matches Some(n) ==> (wire_get(n, "params"@) matches Some(p) && summary_notification(
                n,
                p,
            ) && summary_params(p, false, self.added@, self.removed@, self.updated@)),
    {
        if self.added.len() > 0 || self.removed.len() > 0 || self.updated.len() > 0 {
            Some(notification(false, self.added, self.removed, self.updated))
        } else {
            None
        }
    }
}

impl SummaryMap {
    /// The known entities, in order.
    pub fn entities(&self) -> (keys: Vec<(u64, u32)>)
        requires
            self.wf(),
        ensures
            refs_sorted(keys@),
            keys@.to_set() == self@.dom(),
    {
        let mut keys: Vec<(u64, u32)> = Vec::new();
        let mut i: usize = 0;
        while i < self.entries.len()
            invariant
                self.wf(),
                i <= self.entries@.len(),
                keys@.len() == i,
                forall|j: int| 0 <= j < i ==> #[trigger] keys@[j] == self.entries@[j].entity,
            decreases self.entries.len() - i,
        {
            keys.push(self.entries[i].entity);
            i = i + 1;
        }
        proof {
            assert forall|a: int, b: int| 0 <= a < b < keys@.len() implies ref_lt(
                #[trigger] keys@[a],
                #[trigger] keys@[b],
            ) by {
                assert(ref_lt(self.entries@[a].entity, self.entries@[b].entity));
            }
            assert forall|k: (u64, u32)| keys@.to_set().contains(k) <==> self@.dom().contains(
                k,
            ) by {
                if keys@.contains(k) {
                    let j = choose|j: int| 0 <= j < keys@.len() && keys@[j] == k;
                    assert(holds_entity(self.entries@, k, j));
                }
                if self@.dom().contains(k) {
                    let j = choose|j: int| #[trigger] holds_entity(self.entries@, k, j);
                    assert(keys@[j] == k);
                }
            }
            assert(keys@.to_set() =~= self@.dom());
        }
        keys
    }

    /// The snapshot that opens a subscription: every known summary, in entity order.
    pub fn snapshot(&self) -> (w: Wire)
        requires
            self.wf(),
        ensures
            wire_get(w, "params"@) matches Some(p) && summary_notification(w, p) && (wire_get(
                p,
                "added"@,
            ) matches Some(Wire::Array(a)) && lists_summaries(a@, self.entries@) && summary_params(
                p,
                true,
                a@,
                Seq::empty(),
                Seq::empty(),
            )),
    {
        let mut added: Vec<Wire> = Vec::new();
        let mut i: usize = 0;
        while i < self.entries.len()
            invariant
                i <= self.entries@.len(),
                lists_summaries(added@, self.entries@.subrange(0, i as int)),
            decreases self.entries.len() - i,
        {
            added.push(self.entries[i].to_wire());
            i = i + 1;
        }
        assert(self.entries@.subrange(0, i as int) =~= self.entries@);
        let removed: Vec<Wire> = Vec::new();
        let updated: Vec<Wire> = Vec::new();
        assert(removed@ =~= Seq::<Wire>::empty());
        assert(updated@ =~= Seq::<Wire>::empty());
        notification(true, added, removed, updated)
    }
}

/// The entities to look at again before publishing: those marked changed, and
/// those that appeared or disappeared since the last publication; sorted, each once.
pub fn refresh_list(dirty: &Vec<(u64, u32)>, live: &Vec<(u64, u32)>, known: &SummaryMap) -> (out: Vec<
    (u64, u32),
>)
    requires
        known.wf(),
    ensures
        refs_sorted(out@),
        out@.to_set() == dirty@.to_set() + (live@.to_set() - known@.dom()) + (known@.dom()
            - live@.to_set()),
{
    let keys = known.entities();
    let mut all: Vec<(u64, u32)> = Vec::new();
    let mut i: usize = 0;
    while i < dirty.len()
        invariant
            i <= dirty.len(),
            all@ == dirty@.subrange(0, i as int),
        decreases dirty.len() - i,
    {
        all.push(dirty[i]);
        i = i + 1;
    }
    assert(dirty@.subrange(0, i as int) =~= dirty@);
    let mut j: usize = 0;
    while j < live.len()
        invariant
            j <= live.len(),
            refs_sorted(keys@),
            keys@.to_set() == known@.dom(),
            all@.to_set() == dirty@.to_set() + (live@.subrange(0, j as int).to_set() - known@.dom()),
        decreases live.len() - j,
    {
        let e = live[j];
        let ghost before = all@;
        if !holds_ref(&keys, e) {
            all.push(e);
            proof {
                before.lemma_push_to_set_commute(e);
            }
        }
        proof {
            assert(live@.subrange(0, j + 1) =~= live@.subrange(0, j as int).push(e));
            live@.subrange(0, j as int).lemma_push_to_set_commute(e);
            assert(all@.to_set() =~= dirty@.to_set() + (live@.subrange(0, j + 1).to_set()
                - known@.dom()));
        }
        j = j + 1;
    }
    assert(live@.subrange(0, j as int) =~= live@);
    let mut k: usize = 0;
    while k < keys.len()
        invariant
            k <= keys.len(),
            keys@.to_set() == known@.dom(),
            all@.to_set() == dirty@.to_set() + (live@.to_set() - known@.dom()) + (
            keys@.subrange(0, k as int).to_set() - live@.to_set()),
        decreases keys.len() - k,
    {
        let e = keys[k];
        let ghost before = all@;
        if !holds_ref(live, e) {
            all.push(e);
            proof {
                before.lemma_push_to_set_commute(e);
            }
        }
        proof {
            assert(keys@.subrange(0, k + 1) =~= keys@.subrange(0, k as int).push(e));
            keys@.subrange(0, k as int).lemma_push_to_set_commute(e);
            assert(all@.to_set() =~= dirty@.to_set() + (live@.to_set() - known@.dom()) + (
            keys@.subrange(0, k + 1).to_set() - live@.to_set()));
        }
        k = k + 1;
    }
    assert(keys@.subrange(0, k as int) =~= keys@);
    sorted_refs(&all)
}

/// Whether `x` is among the references.
fn holds_ref(refs: &Vec<(u64, u32)>, x: (u64, u32)) -> (found: bool)
    ensures
        found == refs@.to_set().contains(x),
{
    let mut i: usize = 0;
    while i < refs.len()
        invariant
            i <= refs.len(),
            forall|j: int| 0 <= j < i ==> refs@[j] != x,
        decreases refs.len() - i,
    {
        if refs[i].0 == x.0 && refs[i].1 == x.1 {
            assert(refs@.contains(x)) by {
                assert(refs@[i as int] == x);
            }
            return true;
        }
        i = i + 1;
    }
    false
}

/// A summary passes a query's filters: its name holds `name_contains`, it has the
/// component `component`, and its node is at `node_path` (`at_node_path`, which
/// the engine answers).
pub open spec fn selected(s: Summary, q: PageRequest, at_node_path: bool) -> bool {
    &&& q.name_contains matches Some(n) ==> has_substring(s.name@, n@)
    &&& q.component matches Some(c) ==> views(s.components@).contains(c@)
    &&& q.node_path is Some ==> at_node_path
}

/// The summaries that pass a query's filters, in order.
pub open spec fn selection(s: Seq<Summary>, at: Seq<bool>, q: PageRequest) -> Seq<Summary>
    decreases s.len(),
{
    if s.len() == 0 {
        Seq::empty()
    } else {
        let earlier = selection(s.drop_last(), at.subrange(0, s.len() - 1), q);
        if selected(s.last(), q, at[s.len() - 1]) {
            earlier.push(s.last())
        } else {
            earlier
        }
    }
}

/// The part of a selection on the requested page.
pub open spec fn page_of(sel: Seq<Summary>, q: PageRequest) -> Seq<Summary> {
    let start = if q.offset <= sel.len() {
        q.offset as int
    } else {
        sel.len() as int
    };
    let end = if start + q.page_size <= sel.len() {
        start + q.page_size
    } else {
        sel.len() as int
    };
    sel.subrange(start, end)
}

/// Whether a summary has a component of this type path.
fn has_component(s: &Summary, component: &str) -> (found: bool)
    ensures
        found == views(s.components@).contains(component@),
{
    let mut i: usize = 0;
    while i < s.components.len()
        invariant
            i <= s.components@.len(),
            forall|j: int| 0 <= j < i ==> s.components@[j]@ != component@,
        decreases s.components.len() - i,
    {
        if str_eq(s.components[i].as_str(), component) {
            assert(views(s.components@)[i as int] == component@);
            return true;
        }
        i = i + 1;
    }
    proof {
        if views(s.components@).contains(component@) {
            let j = choose|j: int| 0 <= j < views(s.components@).len() && views(s.components@)[j] == component@;
            assert(s.components@[j]@ == component@);
        }
    }
    false
}

fn passes(s: &Summary, q: &PageRequest, at_node_path: bool) -> (ok: bool)
    ensures
        ok == selected(*s, *q, at_node_path),
{
    let name_ok = match &q.name_contains {
        Some(n) => contains_text(s.name.as_str(), n.as_str()),
        None => true,
    };
    let component_ok = match &q.component {
        Some(c) => has_component(s, c.as_str()),
        None => true,
    };
    let path_ok = match &q.node_path {
        Some(_) => at_node_path,
        None => true,
    };
    name_ok && component_ok && path_ok
}

/// The answer to an entity query over the known summaries: how many pass the
/// filters, the page asked for, and the summaries on it. `at_node_path[i]` says
/// whether the node of the `i`-th summary is at the queried node path.
pub fn query_reply(summaries: &SummaryMap, at_node_path: &Vec<bool>, q: &PageRequest) -> (w: Wire)
    requires
        at_node_path@.len() == summaries.entries@.len(),
    ensures
        w matches Wire::Object(fields) && keys_sorted(fields@),
        member_names(w) == set!["total"@, "page"@, "page_size"@, "entities"@],
        wire_get(w, "total"@) == Some(
            Wire::Integer(selection(summaries.entries@, at_node_path@, *q).len() as i64),
        ),
        wire_get(w, "page"@) == Some(Wire::Integer(q.page as i64)),
        wire_get(w, "page_size"@) == Some(Wire::Integer(q.page_size as i64)),
        wire_get(w, "entities"@) matches Some(Wire::Array(items)) && lists_summaries(
            items@,
            page_of(selection(summaries.entries@, at_node_path@, *q), *q),
        ),
{
    let ghost entries = summaries.entries@;
    let ghost at = at_node_path@;
    let mut total: usize = 0;
    let mut items: Vec<Wire> = Vec::new();
    let mut i: usize = 0;
    while i < summaries.entries.len()
        invariant
            entries == summaries.entries@,
            at == at_node_path@,
            at.len() == entries.len(),
            i <= entries.len(),
            total == selection(entries.subrange(0, i as int), at.subrange(0, i as int), *q).len(),
            total <= i,
            lists_summaries(
                items@,
                page_of(selection(entries.subrange(0, i as int), at.subrange(0, i as int), *q), *q),
            ),
        decreases entries.len() - i,
    {
        let ghost sel = selection(entries.subrange(0, i as int), at.subrange(0, i as int), *q);
        let ghost next = entries.subrange(0, i + 1);
        assert(next.drop_last() =~= entries.subrange(0, i as int));
        assert(at.subrange(0, i + 1).subrange(0, i as int) =~= at.subrange(0, i as int));
        assert(next.last() == entries[i as int]);
        assert(at.subrange(0, i + 1)[i as int] == at[i as int]);
        if passes(&summaries.entries[i], q, at_node_path[i]) {
            assert(selection(next, at.subrange(0, i + 1), *q) == sel.push(entries[i as int]));
            if total >= q.offset && total - q.offset < q.page_size {
                items.push(summaries.entries[i].to_wire());
                assert(page_of(sel.push(entries[i as int]), *q) =~= page_of(sel, *q).push(
                    entries[i as int],
                ));
            } else {
                assert(page_of(sel.push(entries[i as int]), *q) =~= page_of(sel, *q));
            }
            total = total + 1;
        } else {
            assert(selection(next, at.subrange(0, i + 1), *q) == sel);
        }
        i = i + 1;
    }
    assert(entries.subrange(0, i as int) =~= entries);
    assert(at.subrange(0, i as int) =~= at);
    let pairs = vec![
        ("total", Wire::Integer(total as i64)),
        ("page", Wire::Integer(q.page as i64)),
        ("page_size", Wire::Integer(q.page_size as i64)),
        ("entities", Wire::Array(items)),
    ];
    let ghost p = pairs@;
    let w = Wire::object(pairs);
    proof {
        reveal_strlit("total");
        reveal_strlit("page");
        reveal_strlit("page_size");
        reveal_strlit("entities");
        reveal_with_fuel(assoc_last, 5);
        assert("total"@[0] != "entities"@[0]);
        assert(wire_get(w, "total"@) == assoc_last(p, "total"@));
        assert(wire_get(w, "page"@) == assoc_last(p, "page"@));
        assert(wire_get(w, "page_size"@) == assoc_last(p, "page_size"@));
        assert(wire_get(w, "entities"@) == assoc_last(p, "entities"@));
        assert forall|k: Seq<char>| #[trigger] member_names(w).contains(k) <==> set![
            "total"@,
            "page"@,
            "page_size"@,
            "entities"@,
        ].contains(k) by {
            assert(wire_get(w, k) == assoc_last(p, k));
        }
        assert(member_names(w) =~= set!["total"@, "page"@, "page_size"@, "entities"@]);
    }
    w
}

/// A subscriber's state: its interval, whether the opening snapshot is still
/// owed, and the summaries it was last sent.
#[derive(Debug)]
pub struct Subscription {
    pub interval: Interval,
    pub initial: bool,
    pub summaries: SummaryMap,
}

impl Subscription {
    /// A new subscription; its first publication is a snapshot of `summaries`.
    pub fn new(interval: Interval, summaries: SummaryMap) -> (s: Self)
        requires
            summaries.wf(),
        ensures
            s.interval == interval,
            s.initial,
            s.summaries == summaries,
    {
        Subscription { interval, initial: true, summaries }
    }

    /// The opening snapshot, sent once: afterwards only changes are published.
    pub fn opening(&mut self) -> (w: Option<Wire>)
        requires
            old(self).summaries.wf(),
        ensures
            final(self).summaries == old(self).summaries,
            final(self).interval == old(self).interval,
            !final(self).initial,
            w is Some <==> old(self).initial,
            w matches Some(n) ==> (wire_get(n, "params"@) matches Some(p) && summary_notification(
                n,
                p,
            ) && (wire_get(p, "added"@) matches Some(Wire::Array(a)) && lists_summaries(
                a@,
                old(self).summaries.entries@,
            ) && summary_params(p, true, a@, Seq::empty(), Seq::empty()))),
    {
        if self.initial {
            self.initial = false;
            Some(self.summaries.snapshot())
        } else {
            None
        }
    }
}

impl Subscription {
    /// Starts a publication after the opening snapshot. While the interval has
    /// not elapsed nothing is due and the marked entities stay marked; once it
    /// has, the marks are taken and the entities to look at again are returned:
    /// the marked ones and those that appeared or disappeared, sorted, each once.
    pub fn due(&self, marks: &mut Vec<(u64, u32)>, elapsed: bool, live: &Vec<(u64, u32)>) -> (list:
        Option<Vec<(u64, u32)>>)
        requires
            self.summaries.wf(),
        ensures
            !elapsed ==> list is None && final(marks)@ == old(marks)@,
            elapsed ==> final(marks)@ == Seq::<(u64, u32)>::empty() && (list matches Some(l)
                && refs_sorted(l@) && l@.to_set() == old(marks)@.to_set() + (live@.to_set()
                - self.summaries@.dom()) + (self.summaries@.dom() - live@.to_set())),
    {
        if !elapsed {
            return None;
        }
        let list = refresh_list(marks, live, &self.summaries);
        *marks = Vec::new();
        Some(list)
    }
}

/// The one entity of a strictly sorted list that holds only `e` is `e`.
proof fn lemma_sorted_single(list: Seq<(u64, u32)>, e: (u64, u32))
    requires
        refs_sorted(list),
        list.to_set() == set![e],
    ensures
        list == seq![e],
{
    assert(list.to_set().contains(e));
    assert(list.contains(e));
    assert(list.len() > 0);
    assert(list.to_set().contains(list[0]));
    if list.len() > 1 {
        assert(list.to_set().contains(list[1]));
        assert(ref_lt(list[0], list[1]));
    }
    assert(list =~= seq![e]);
}

/// Edits inside an interval are merged into one update afterwards. An entity
/// marked any number of times while the interval runs, among entities that
/// neither appear nor disappear, is looked at once when the interval has
/// elapsed: the publication reports it once, in `updated`, with the summary it
/// has then, and nothing as added or removed. The publication after it, with
/// no new marks, has nothing to look at.
pub proof fn law_interval_coalesces_changes(
    known: Map<(u64, u32), Summary>,
    live: Set<(u64, u32)>,
    marks: Seq<(u64, u32)>,
    e: (u64, u32),
    latest: Summary,
    list: Seq<(u64, u32)>,
    next_list: Seq<(u64, u32)>,
)
    requires
        known.contains_key(e),
        live == known.dom(),
        marks.len() > 0,
        forall|i: int| 0 <= i < marks.len() ==> marks[i] == e,
        latest.entity == e,
        latest.name@ != known[e].name@ || latest.parent != known[e].parent,
        refs_sorted(list),
        list.to_set() == marks.to_set() + (live - known.dom()) + (known.dom() - live),
        refs_sorted(next_list),
        next_list.to_set() == Seq::<(u64, u32)>::empty().to_set() + (live - after_changes(
            known,
            seq![(e, Some(latest))],
        ).dom()) + (after_changes(known, seq![(e, Some(latest))]).dom() - live),
    ensures
        list == seq![e],
        after_changes(known, seq![(e, Some(latest))]) == known.insert(e, latest),
        added_of(known, seq![(e, Some(latest))]) == Seq::<Summary>::empty(),
        removed_of(known, seq![(e, Some(latest))]) == Seq::<(u64, u32)>::empty(),
        updated_of(known, seq![(e, Some(latest))]) == seq![latest],
        next_list == Seq::<(u64, u32)>::empty(),
{
    let cs = seq![(e, Some(latest))];
    assert(cs.drop_last() =~= Seq::<Change>::empty());
    assert(marks.to_set() =~= set![e]) by {
        assert(marks.to_set().contains(marks[0]));
    }
    assert(list.to_set() =~= set![e]);
    lemma_sorted_single(list, e);
    assert(after_changes(known, Seq::<Change>::empty()) == known);
    assert(after_changes(known, cs) == known.insert(e, latest));
    assert(added_of(known, Seq::<Change>::empty()) =~= Seq::<Summary>::empty());
    assert(added_of(known, cs) =~= Seq::<Summary>::empty());
    assert(removed_of(known, Seq::<Change>::empty()) =~= Seq::<(u64, u32)>::empty());
    assert(removed_of(known, cs) =~= Seq::<(u64, u32)>::empty());
    assert(updated_of(known, Seq::<Change>::empty()) =~= Seq::<Summary>::empty());
    assert(updated_of(known, cs) =~= seq![latest]);
    assert(known.insert(e, latest).dom() =~= known.dom());
    assert(next_list.to_set() =~= Set::<(u64, u32)>::empty());
    if next_list.len() > 0 {
        assert(next_list.to_set().contains(next_list[0]));
    }
    assert(next_list =~= Seq::<(u64, u32)>::empty());
}

/// Each entity is changed at most once.
pub open spec fn keys_distinct(cs: Seq<Change>) -> bool {
    forall|i: int, j: int| 0 <= i < j < cs.len() ==> #[trigger] cs[i].0 != #[trigger] cs[j].0
}

proof fn lemma_after_changes_domain(m: Map<(u64, u32), Summary>, cs: Seq<Change>, x: (u64, u32))
    requires
        keys_distinct(cs),
    ensures
        after_changes(m, cs).contains_key(x) <==> if exists|i: int|
            0 <= i < cs.len() && #[trigger] cs[i].0 == x {
            cs[choose|i: int| 0 <= i < cs.len() && #[trigger] cs[i].0 == x].1 is Some
        } else {
            m.contains_key(x)
        },
    decreases cs.len(),
{
    if cs.len() > 0 {
        let rest = cs.drop_last();
        assert forall|i: int, j: int| 0 <= i < j < rest.len() implies #[trigger] rest[i].0
            != #[trigger] rest[j].0 by {
            assert(cs[i].0 != cs[j].0);
        }
        lemma_after_changes_domain(m, rest, x);
        let last = cs.len() - 1;
        if cs[last].0 == x {
            let c = choose|i: int| 0 <= i < cs.len() && #[trigger] cs[i].0 == x;
            if c != last {
                assert(cs[c].0 != cs[last].0);
            }
        } else {
            if exists|i: int| 0 <= i < cs.len() && #[trigger] cs[i].0 == x {
                let c = choose|i: int| 0 <= i < cs.len() && #[trigger] cs[i].0 == x;
                assert(rest[c].0 == x);
                let d = choose|i: int| 0 <= i < rest.len() && #[trigger] rest[i].0 == x;
                if c != d {
                    assert(cs[c].0 == cs[d].0);
                }
            } else {
                assert forall|i: int| 0 <= i < rest.len() implies #[trigger] rest[i].0 != x by {
                    assert(cs[i].0 != x);
                }
            }
        }
    }
}

/// A publication brings the subscriber up to date: when the changes cover each
/// entity at most once, give a summary exactly to the live ones, and include
/// every entity that appeared or disappeared, the entities known afterwards are
/// exactly the live ones.
pub proof fn law_publication_tracks_live(
    known: Map<(u64, u32), Summary>,
    live: Set<(u64, u32)>,
    cs: Seq<Change>,
)
    requires
        keys_distinct(cs),
        forall|i: int| 0 <= i < cs.len() ==> ((#[trigger] cs[i]).1 is Some <==> live.contains(cs[i].0)),
        forall|x: (u64, u32)|
            (live.contains(x) != known.contains_key(x)) ==> exists|i: int|
                0 <= i < cs.len() && #[trigger] cs[i].0 == x,
    ensures
        after_changes(known, cs).dom() == live,
{
    assert forall|x: (u64, u32)| after_changes(known, cs).dom().contains(x) <==> live.contains(x) by {
        lemma_after_changes_domain(known, cs, x);
        if exists|i: int| 0 <= i < cs.len() && #[trigger] cs[i].0 == x {
            let c = choose|i: int| 0 <= i < cs.len() && #[trigger] cs[i].0 == x;
            assert(cs[c].1 is Some <==> live.contains(x));
        }
    }
    assert(after_changes(known, cs).dom() =~= live);
}

} // verus!
