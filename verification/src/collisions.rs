//! Tracking of the collision pairs reported by the engine.
//!
//! Entities are identified by their 64-bit id (`Entity::to_bits`), whose
//! numeric order is the order Bevy gives entities.

use bevy_platform::collections::{HashMap, HashSet};
use bevy_platform::hash::FixedHasher;
use vstd::prelude::*;

verus! {

#[verifier::external_type_specification]
#[verifier::external_body]
#[verifier::reject_recursive_types(T)]
#[verifier::reject_recursive_types(S)]
pub struct ExPlatformHashSet<T, S>(bevy_platform::collections::HashSet<T, S>);

#[verifier::external_type_specification]
#[verifier::external_body]
#[verifier::reject_recursive_types(K)]
#[verifier::reject_recursive_types(V)]
#[verifier::reject_recursive_types(S)]
pub struct ExPlatformHashMap<K, V, S>(bevy_platform::collections::HashMap<K, V, S>);

#[verifier::external_type_specification]
#[verifier::external_body]
pub struct ExFixedHasher(bevy_platform::hash::FixedHasher);

/// The platform hash set that holds the active pairs.
pub type PairSet = HashSet<(u64, u64), FixedHasher>;

/// The platform hash map from an entity to the entities it collides with.
pub type NeighborMap = HashMap<u64, Vec<u64>, FixedHasher>;

/// The pairs held by a platform hash set of entity pairs.
pub uninterp spec fn pair_set_contents(set: PairSet) -> Set<(u64, u64)>;

/// The lists held by a platform hash map from an entity to its neighbours.
pub uninterp spec fn neighbor_map_contents(map: NeighborMap) -> Map<
    u64,
    Seq<u64>,
>;

/// `HashSet::default`: a new set holds no pair.
#[verifier::external_body]
fn pair_set_new() -> (set: PairSet)
    ensures
        pair_set_contents(set) == Set::<(u64, u64)>::empty(),
{
    HashSet::default()
}

/// `HashSet::insert`: adds the pair; returns whether it was absent before.
#[verifier::external_body]
fn pair_set_insert(set: &mut PairSet, pair: (u64, u64)) -> (added: bool)
    ensures
        pair_set_contents(*final(set)) == pair_set_contents(*old(set)).insert(pair),
        added == !pair_set_contents(*old(set)).contains(pair),
{
    set.insert(pair)
}

/// `HashSet::remove`: drops the pair; returns whether it was present.
#[verifier::external_body]
fn pair_set_remove(set: &mut PairSet, pair: &(u64, u64)) -> (removed:
    bool)
    ensures
        pair_set_contents(*final(set)) == pair_set_contents(*old(set)).remove(*pair),
        removed == pair_set_contents(*old(set)).contains(*pair),
{
    set.remove(pair)
}

/// `HashSet::contains`: membership of the pair.
#[verifier::external_body]
fn pair_set_contains(set: &PairSet, pair: &(u64, u64)) -> (found: bool)
    ensures
        found == pair_set_contents(*set).contains(*pair),
{
    set.contains(pair)
}

/// `HashSet::len`: the number of pairs.
#[verifier::external_body]
fn pair_set_len(set: &PairSet) -> (n: usize)
    ensures
        n == pair_set_contents(*set).len(),
{
    set.len()
}

/// `HashSet::is_empty`: whether the set holds no pair.
#[verifier::external_body]
fn pair_set_is_empty(set: &PairSet) -> (empty: bool)
    ensures
        empty == (pair_set_contents(*set) == Set::<(u64, u64)>::empty()),
{
    set.is_empty()
}

/// `HashSet::iter`: visits every pair exactly once, in an order the hasher decides.
#[verifier::external_body]
fn pair_set_items(set: &PairSet) -> (items: Vec<(u64, u64)>)
    ensures
        items@.to_set() == pair_set_contents(*set),
        items@.no_duplicates(),
{
    set.iter().copied().collect()
}

/// `HashMap::default`: a new map holds no entry.
#[verifier::external_body]
fn neighbor_map_new() -> (table: NeighborMap)
    ensures
        neighbor_map_contents(table) == empty_adjacency(),
{
    HashMap::default()
}

/// `HashMap::get`: the list stored under `key`, if any.
#[verifier::external_body]
fn neighbor_map_get<'a>(table: &'a NeighborMap, key: &u64) -> (list:
    Option<&'a Vec<u64>>)
    ensures
        list is Some <==> neighbor_map_contents(*table).contains_key(*key),
        list matches Some(l) ==> l@ == neighbor_map_contents(*table)[*key],
{
    table.get(key)
}

/// `HashMap::insert`: stores `list` under `key`, returning the list it replaced.
#[verifier::external_body]
fn neighbor_map_insert(table: &mut NeighborMap, key: u64, list: Vec<u64>) -> (previous: Option<Vec<u64>>)
    ensures
        neighbor_map_contents(*final(table)) == neighbor_map_contents(*old(table)).insert(key, list@),
        previous is Some <==> neighbor_map_contents(*old(table)).contains_key(key),
        previous matches Some(p) ==> p@ == neighbor_map_contents(*old(table))[key],
{
    table.insert(key, list)
}

/// `HashMap::remove`: takes the list stored under `key` out of the table.
#[verifier::external_body]
fn neighbor_map_remove(table: &mut NeighborMap, key: &u64) -> (removed:
    Option<Vec<u64>>)
    ensures
        neighbor_map_contents(*final(table)) == neighbor_map_contents(*old(table)).remove(*key),
        removed is Some <==> neighbor_map_contents(*old(table)).contains_key(*key),
        removed matches Some(p) ==> p@ == neighbor_map_contents(*old(table))[*key],
{
    table.remove(key)
}

/// `HashMap::clear`: the table is left with no entry.
#[verifier::external_body]
fn neighbor_map_clear(table: &mut NeighborMap)
    ensures
        neighbor_map_contents(*final(table)) == empty_adjacency(),
{
    table.clear()
}

/// The adjacency with no entry.
pub open spec fn empty_adjacency() -> Map<u64, Seq<u64>> {
    Map::empty()
}

/// The order-independent key of a pair: the smaller id comes first.
pub open spec fn pair_key(a: u64, b: u64) -> (u64, u64) {
    if a < b {
        (a, b)
    } else {
        (b, a)
    }
}

/// Whether `pair` is one of `pair_key`'s results.
pub open spec fn is_pair_key(pair: (u64, u64)) -> bool {
    pair.0 <= pair.1
}

/// Whether `a` takes part in `pair`.
pub open spec fn involves(pair: (u64, u64), a: u64) -> bool {
    pair.0 == a || pair.1 == a
}

/// `s` without any occurrence of `x`, order kept.
pub open spec fn without(s: Seq<u64>, x: u64) -> Seq<u64> {
    s.filter(differs_from(x))
}

/// The test kept by `without`.
pub open spec fn differs_from(x: u64) -> spec_fn(u64) -> bool {
    |y: u64| y != x
}

/// The list stored under `key`, or the empty list.
pub open spec fn list_or_empty(m: Map<u64, Seq<u64>>, key: u64) -> Seq<u64> {
    if m.contains_key(key) {
        m[key]
    } else {
        Seq::empty()
    }
}

/// Orders an entity pair so that the same two entities always give the same key.
pub fn normalize_pair(a: u64, b: u64) -> (pair: (u64, u64))
    ensures
        pair == pair_key(a, b),
        is_pair_key(pair),
        pair == pair_key(b, a),
{
    if a < b {
        (a, b)
    } else {
        (b, a)
    }
}

/// Removes every occurrence of `x` from `list`, keeping the order of the rest.
fn retain_other(list: &Vec<u64>, x: u64) -> (kept: Vec<u64>)
    ensures
        kept@ == without(list@, x),
{
    let mut kept: Vec<u64> = Vec::new();
    let mut i: usize = 0;
    while i < list.len()
        invariant
            i <= list.len(),
            kept@ == without(list@.subrange(0, i as int), x),
        decreases list.len() - i,
    {
        assert(list@.subrange(0, i + 1).drop_last() =~= list@.subrange(0, i as int));
        assert(list@.subrange(0, i + 1).last() == list@[i as int]);
        proof {
            reveal_with_fuel(Seq::<_>::filter, 1);
        }
        if list[i] != x {
            kept.push(list[i]);
        }
        i = i + 1;
    }
    assert(list@.subrange(0, list.len() as int) =~= list@);
    kept
}

/// Collision state: the active pairs, the pairs that started and ended during the
/// current frame, and for each entity the entities it collides with.
pub struct CollisionState {
    active_pairs: PairSet,
    started_this_frame: Vec<(u64, u64)>,
    ended_this_frame: Vec<(u64, u64)>,
    entity_collisions: NeighborMap,
}

impl CollisionState {
    /// The active pairs, each as its `pair_key`.
    pub closed spec fn pairs(&self) -> Set<(u64, u64)> {
        pair_set_contents(self.active_pairs)
    }

    /// The pairs that started during the current frame, in order.
    pub closed spec fn started_pairs(&self) -> Seq<(u64, u64)> {
        self.started_this_frame@
    }

    /// The pairs that ended during the current frame, in order.
    pub closed spec fn ended_pairs(&self) -> Seq<(u64, u64)> {
        self.ended_this_frame@
    }

    /// For each entity with an adjacency entry, the entities listed as colliding with it.
    pub closed spec fn neighbors(&self) -> Map<u64, Seq<u64>> {
        neighbor_map_contents(self.entity_collisions)
    }

    /// Every active pair is stored as its `pair_key`.
    pub open spec fn wf(&self) -> bool {
        forall|p: (u64, u64)| #[trigger] self.pairs().contains(p) ==> is_pair_key(p)
    }

    /// The adjacency lists agree with the active pairs: `b` is listed under `a`
    /// exactly when `a` and `b` form an active pair.
    pub open spec fn neighbors_consistent(&self) -> bool {
        adjacency_matches(self.pairs(), self.neighbors())
    }

    /// An empty state: no pair, no event, no adjacency.
    pub fn new() -> (state: Self)
        ensures
            state.wf(),
            state.neighbors_consistent(),
            state.pairs() == Set::<(u64, u64)>::empty(),
            state.started_pairs() == Seq::<(u64, u64)>::empty(),
            state.ended_pairs() == Seq::<(u64, u64)>::empty(),
            state.neighbors() == empty_adjacency(),
    {
        CollisionState {
            active_pairs: pair_set_new(),
            started_this_frame: Vec::new(),
            ended_this_frame: Vec::new(),
            entity_collisions: neighbor_map_new(),
        }
    }

    /// Forgets the pairs that started or ended during the previous frame.
    pub fn begin_frame(&mut self)
        ensures
            final(self).pairs() == old(self).pairs(),
            final(self).neighbors() == old(self).neighbors(),
            final(self).started_pairs() == Seq::<(u64, u64)>::empty(),
            final(self).ended_pairs() == Seq::<(u64, u64)>::empty(),
    {
        self.started_this_frame.clear();
        self.ended_this_frame.clear();
    }

    /// Appends `item` to the list stored under `key`, creating the list if needed.
    fn push_neighbor(&mut self, key: u64, item: u64)
        ensures
            final(self).neighbors() == old(self).neighbors().insert(
                key,
                list_or_empty(old(self).neighbors(), key).push(item),
            ),
            final(self).pairs() == old(self).pairs(),
            final(self).started_pairs() == old(self).started_pairs(),
            final(self).ended_pairs() == old(self).ended_pairs(),
    {
        let mut list = match neighbor_map_remove(&mut self.entity_collisions, &key) {
            Some(list) => list,
            None => Vec::new(),
        };
        list.push(item);
        let _ = neighbor_map_insert(&mut self.entity_collisions, key, list);
    }

    /// Drops every occurrence of `item` from the list stored under `key`, if there is one.
    fn drop_neighbor(&mut self, key: u64, item: u64)
        ensures
            final(self).neighbors() == (if old(self).neighbors().contains_key(key) {
                old(self).neighbors().insert(key, without(old(self).neighbors()[key], item))
            } else {
                old(self).neighbors()
            }),
            final(self).pairs() == old(self).pairs(),
            final(self).started_pairs() == old(self).started_pairs(),
            final(self).ended_pairs() == old(self).ended_pairs(),
    {
        match neighbor_map_remove(&mut self.entity_collisions, &key) {
            Some(list) => {
                let kept = retain_other(&list, item);
                let _ = neighbor_map_insert(&mut self.entity_collisions, key, kept);
            },
            None => {
                assert(neighbor_map_contents(self.entity_collisions) =~= old(self).neighbors());
            },
        }
    }

    /// Records that `origin` and `target` started colliding, updating the adjacency
    /// lists when `update_neighbors` holds. Returns whether the pair was new.
    pub fn add_collision_internal(&mut self, origin: u64, target: u64, update_neighbors: bool) -> (added:
        bool)
        requires
            old(self).wf(),
        ensures
            final(self).wf(),
            added == !old(self).pairs().contains(pair_key(origin, target)),
            final(self).pairs() == old(self).pairs().insert(pair_key(origin, target)),
            final(self).ended_pairs() == old(self).ended_pairs(),
            final(self).started_pairs() == (if added {
                old(self).started_pairs().push(pair_key(origin, target))
            } else {
                old(self).started_pairs()
            }),
            final(self).neighbors() == (if added && update_neighbors {
                neighbors_after_link(old(self).neighbors(), origin, target)
            } else {
                old(self).neighbors()
            }),
    {
        let pair = normalize_pair(origin, target);
        let ghost before = old(self).pairs();
        if pair_set_insert(&mut self.active_pairs, pair) {
            self.started_this_frame.push(pair);
            if update_neighbors {
                self.push_neighbor(origin, target);
                self.push_neighbor(target, origin);
            }
            assert forall|p: (u64, u64)| #[trigger] self.pairs().contains(p) implies is_pair_key(
                p,
            ) by {
                if p != pair {
                    assert(before.contains(p));
                }
            }
            true
        } else {
            assert(self.pairs() =~= old(self).pairs().insert(pair));
            false
        }
    }

    /// Records that `origin` and `target` started colliding. Returns whether the pair was new.
    pub fn add_collision(&mut self, origin: u64, target: u64) -> (added: bool)
        requires
            old(self).wf(),
        ensures
            final(self).wf(),
            added == !old(self).pairs().contains(pair_key(origin, target)),
            final(self).pairs() == old(self).pairs().insert(pair_key(origin, target)),
            final(self).ended_pairs() == old(self).ended_pairs(),
            final(self).started_pairs() == (if added {
                old(self).started_pairs().push(pair_key(origin, target))
            } else {
                old(self).started_pairs()
            }),
            added ==> final(self).neighbors() == neighbors_after_link(
                old(self).neighbors(),
                origin,
                target,
            ),
            !added ==> final(self).neighbors() == old(self).neighbors(),
            old(self).neighbors_consistent() ==> final(self).neighbors_consistent(),
    {
        let added = self.add_collision_internal(origin, target, true);
        proof {
            if added {
                lemma_add_keeps_consistency(old(self), self, origin, target);
            }
        }
        added
    }

    /// Records a new pair without touching the adjacency lists; they are rebuilt
    /// afterwards with `rebuild_entity_collisions`.
    pub fn add_collision_without_neighbors(&mut self, origin: u64, target: u64) -> (added: bool)
        requires
            old(self).wf(),
        ensures
            final(self).wf(),
            added == !old(self).pairs().contains(pair_key(origin, target)),
            final(self).pairs() == old(self).pairs().insert(pair_key(origin, target)),
            final(self).ended_pairs() == old(self).ended_pairs(),
            final(self).started_pairs() == (if added {
                old(self).started_pairs().push(pair_key(origin, target))
            } else {
                old(self).started_pairs()
            }),
            final(self).neighbors() == old(self).neighbors(),
    {
        self.add_collision_internal(origin, target, false)
    }

    /// Records that `origin` and `target` stopped colliding, updating the adjacency
    /// lists when `update_neighbors` holds. Returns whether the pair was active.
    pub fn remove_collision_internal(&mut self, origin: u64, target: u64, update_neighbors: bool) -> (removed:
        bool)
        requires
            old(self).wf(),
        ensures
            final(self).wf(),
            removed == old(self).pairs().contains(pair_key(origin, target)),
            final(self).pairs() == old(self).pairs().remove(pair_key(origin, target)),
            final(self).started_pairs() == old(self).started_pairs(),
            final(self).ended_pairs() == (if removed {
                old(self).ended_pairs().push(pair_key(origin, target))
            } else {
                old(self).ended_pairs()
            }),
            !(removed && update_neighbors) ==> final(self).neighbors() == old(self).neighbors(),
            removed && update_neighbors ==> final(self).neighbors() == neighbors_after_unlink(
                old(self).neighbors(),
                origin,
                target,
            ),
    {
        let pair = normalize_pair(origin, target);
        let ghost before = old(self).pairs();
        if pair_set_remove(&mut self.active_pairs, &pair) {
            self.ended_this_frame.push(pair);
            if update_neighbors {
                self.drop_neighbor(origin, target);
                self.drop_neighbor(target, origin);
            }
            assert forall|p: (u64, u64)| #[trigger] self.pairs().contains(p) implies is_pair_key(
                p,
            ) by {
                assert(before.contains(p));
            }
            true
        } else {
            assert(self.pairs() =~= old(self).pairs().remove(pair));
            false
        }
    }

    /// Records that `origin` and `target` stopped colliding. Returns whether the pair was active.
    pub fn remove_collision(&mut self, origin: u64, target: u64) -> (removed: bool)
        requires
            old(self).wf(),
        ensures
            final(self).wf(),
            removed == old(self).pairs().contains(pair_key(origin, target)),
            final(self).pairs() == old(self).pairs().remove(pair_key(origin, target)),
            final(self).started_pairs() == old(self).started_pairs(),
            final(self).ended_pairs() == (if removed {
                old(self).ended_pairs().push(pair_key(origin, target))
            } else {
                old(self).ended_pairs()
            }),
            removed ==> final(self).neighbors() == neighbors_after_unlink(
                old(self).neighbors(),
                origin,
                target,
            ),
            !removed ==> final(self).neighbors() == old(self).neighbors(),
            old(self).neighbors_consistent() ==> final(self).neighbors_consistent(),
    {
        let removed = self.remove_collision_internal(origin, target, true);
        proof {
            if removed {
                lemma_remove_keeps_consistency(old(self), self, origin, target);
            }
        }
        removed
    }

    /// Drops a pair without touching the adjacency lists; they are rebuilt
    /// afterwards with `rebuild_entity_collisions`.
    pub fn remove_collision_without_neighbors(&mut self, origin: u64, target: u64) -> (removed:
        bool)
        requires
            old(self).wf(),
        ensures
            final(self).wf(),
            removed == old(self).pairs().contains(pair_key(origin, target)),
            final(self).pairs() == old(self).pairs().remove(pair_key(origin, target)),
            final(self).started_pairs() == old(self).started_pairs(),
            final(self).ended_pairs() == (if removed {
                old(self).ended_pairs().push(pair_key(origin, target))
            } else {
                old(self).ended_pairs()
            }),
            final(self).neighbors() == old(self).neighbors(),
    {
        self.remove_collision_internal(origin, target, false)
    }

    /// Removes every pair recorded in the adjacency list of `entity` and drops `entity`
    /// from each listed neighbour's list. Returns the neighbours it was listed with.
    pub fn purge_entity(&mut self, entity: u64) -> (neighbors: Vec<u64>)
        requires
            old(self).wf(),
        ensures
            final(self).wf(),
            neighbors@ == list_or_empty(old(self).neighbors(), entity),
            final(self).pairs() == pairs_after_purge(old(self).pairs(), entity, neighbors@),
            final(self).neighbors() == neighbors_after_purge(
                old(self).neighbors(),
                entity,
                neighbors@,
            ),
            final(self).started_pairs() == old(self).started_pairs(),
            final(self).ended_pairs() == old(self).ended_pairs(),
            old(self).neighbors_consistent() ==> {
                &&& final(self).neighbors_consistent()
                &&& forall|p: (u64, u64)| #[trigger]
                    final(self).pairs().contains(p) ==> !involves(p, entity)
                &&& forall|x: u64| #[trigger]
                    neighbors@.contains(x) <==> old(self).pairs().contains(pair_key(entity, x))
            },
    {
        let neighbors = match neighbor_map_remove(&mut self.entity_collisions, &entity) {
            Some(list) => list,
            None => Vec::new(),
        };
        let ghost old_pairs = old(self).pairs();
        let ghost old_map = old(self).neighbors();
        let mut i: usize = 0;
        while i < neighbors.len()
            invariant
                i <= neighbors.len(),
                neighbors@ == list_or_empty(old_map, entity),
                old_pairs == old(self).pairs(),
                old_map == old(self).neighbors(),
                self.wf(),
                self.pairs() == pairs_after_purge(
                    old_pairs,
                    entity,
                    neighbors@.subrange(0, i as int),
                ),
                self.neighbors() == neighbors_after_purge(
                    old_map,
                    entity,
                    neighbors@.subrange(0, i as int),
                ),
                self.started_pairs() == old(self).started_pairs(),
                self.ended_pairs() == old(self).ended_pairs(),
            decreases neighbors.len() - i,
        {
            let other = neighbors[i];
            let ghost done = neighbors@.subrange(0, i as int);
            let ghost next = neighbors@.subrange(0, i + 1);
            assert(next =~= done.push(other));
            let pair = normalize_pair(entity, other);
            let ghost pre_pairs = self.pairs();
            let _ = pair_set_remove(&mut self.active_pairs, &pair);
            let ghost mid = self.neighbors();
            self.drop_neighbor(other, entity);
            proof {
                assert(self.pairs() =~= pairs_after_purge(old_pairs, entity, next)) by {
                    assert forall|p: (u64, u64)|
                        #![trigger self.pairs().contains(p)]
                        self.pairs().contains(p) == pairs_after_purge(
                            old_pairs,
                            entity,
                            next,
                        ).contains(p) by {
                        assert(self.pairs().contains(p) == (pre_pairs.contains(p) && p != pair));
                        if p == pair {
                            assert(next[done.len() as int] == other);
                            assert(p == pair_key(entity, next[done.len() as int]));
                        }
                        assert(pre_pairs.contains(p) == pairs_after_purge(
                            old_pairs,
                            entity,
                            done,
                        ).contains(p));
                        if (exists|j: int| 0 <= j < next.len() && p == pair_key(entity, next[j])) {
                            let j = choose|j: int|
                                0 <= j < next.len() && p == pair_key(entity, next[j]);
                            if j < done.len() {
                                assert(done[j] == next[j]);
                            }
                        }
                        if (exists|j: int| 0 <= j < done.len() && p == pair_key(entity, done[j])) {
                            let j = choose|j: int|
                                0 <= j < done.len() && p == pair_key(entity, done[j]);
                            assert(next[j] == done[j]);
                        }
                    }
                }
                assert forall|q: (u64, u64)| #[trigger] self.pairs().contains(q) implies is_pair_key(
                    q,
                ) by {
                    assert(old_pairs.contains(q));
                }
                lemma_purge_step(old_map, entity, done, other, mid, self.neighbors());
            }
            i = i + 1;
        }
        assert(neighbors@.subrange(0, neighbors.len() as int) =~= neighbors@);
        proof {
            if old(self).neighbors_consistent() {
                lemma_purge_consistent(old_pairs, old_map, entity);
            }
        }
        neighbors
    }

    /// Rebuilds every adjacency list from the active pairs.
    pub fn rebuild_entity_collisions(&mut self)
        requires
            old(self).wf(),
        ensures
            final(self).wf(),
            final(self).pairs() == old(self).pairs(),
            final(self).started_pairs() == old(self).started_pairs(),
            final(self).ended_pairs() == old(self).ended_pairs(),
            final(self).neighbors_consistent(),
    {
        neighbor_map_clear(&mut self.entity_collisions);
        assert(self.pairs() == old(self).pairs());
        let items = pair_set_items(&self.active_pairs);
        let mut i: usize = 0;
        while i < items.len()
            invariant
                i <= items.len(),
                items@.to_set() == self.pairs(),
                self.wf(),
                self.pairs() == old(self).pairs(),
                self.started_pairs() == old(self).started_pairs(),
                self.ended_pairs() == old(self).ended_pairs(),
                forall|a: u64, b: u64|
                    #![trigger list_or_empty(self.neighbors(), a).contains(b)]
                    list_or_empty(self.neighbors(), a).contains(b) <==> items@.subrange(
                        0,
                        i as int,
                    ).contains(pair_key(a, b)),
            decreases items.len() - i,
        {
            let (first, second) = items[i];
            let ghost done = items@.subrange(0, i as int);
            let ghost next = items@.subrange(0, i + 1);
            assert(next =~= done.push((first, second)));
            assert(items@.to_set().contains(items@[i as int]));
            assert(is_pair_key((first, second)));
            let ghost before = self.neighbors();
            self.push_neighbor(first, second);
            let ghost between = self.neighbors();
            self.push_neighbor(second, first);
            proof {
                assert forall|a: u64, b: u64|
                    list_or_empty(self.neighbors(), a).contains(b) <==> next.contains(
                        pair_key(a, b),
                    ) by {
                    lemma_push_contains(list_or_empty(before, a), second, b);
                    lemma_push_contains(list_or_empty(between, a), first, b);
                    lemma_push_contains(done, (first, second), pair_key(a, b));
                    if a == first {
                        assert(list_or_empty(between, a) == list_or_empty(before, a).push(
                            second,
                        ));
                    } else {
                        assert(list_or_empty(between, a) == list_or_empty(before, a));
                    }
                    if a == second {
                        assert(list_or_empty(self.neighbors(), a) == list_or_empty(
                            between,
                            a,
                        ).push(first));
                    } else {
                        assert(list_or_empty(self.neighbors(), a) == list_or_empty(between, a));
                    }
                    assert(before.contains_key(a) ==> list_or_empty(before, a).contains(b)
                        == done.contains(pair_key(a, b)));
                }
            }
            i = i + 1;
        }
        proof {
            assert(items@.subrange(0, items.len() as int) =~= items@);
            assert forall|a: u64, b: u64|
                list_or_empty(self.neighbors(), a).contains(b) <==> self.pairs().contains(
                    pair_key(a, b),
                ) by {
                if items@.contains(pair_key(a, b)) {
                    assert(items@.to_set().contains(pair_key(a, b)));
                }
                if self.pairs().contains(pair_key(a, b)) {
                    assert(items@.to_set().contains(pair_key(a, b)));
                }
            }
        }
    }

    /// Whether `a` and `b` are currently colliding, in either order.
    pub fn contains(&self, a: u64, b: u64) -> (found: bool)
        ensures
            found == self.pairs().contains(pair_key(a, b)),
    {
        let pair = normalize_pair(a, b);
        pair_set_contains(&self.active_pairs, &pair)
    }

    /// The entities listed as colliding with `entity`; empty when it has no list.
    pub fn colliding_with(&self, entity: u64) -> (others: &[u64])
        ensures
            others@ == list_or_empty(self.neighbors(), entity),
    {
        match neighbor_map_get(&self.entity_collisions, &entity) {
            Some(list) => list.as_slice(),
            None => &[],
        }
    }

    /// The active pairs, each once, in the set's iteration order.
    pub fn iter(&self) -> (pairs: Vec<(u64, u64)>)
        ensures
            pairs@.to_set() == self.pairs(),
            pairs@.no_duplicates(),
    {
        pair_set_items(&self.active_pairs)
    }

    /// The pairs that started during the current frame, in order.
    pub fn started(&self) -> (pairs: &[(u64, u64)])
        ensures
            pairs@ == self.started_pairs(),
    {
        self.started_this_frame.as_slice()
    }

    /// The pairs that ended during the current frame, in order.
    pub fn ended(&self) -> (pairs: &[(u64, u64)])
        ensures
            pairs@ == self.ended_pairs(),
    {
        self.ended_this_frame.as_slice()
    }

    /// Whether no pair is active.
    pub fn is_empty(&self) -> (empty: bool)
        ensures
            empty == (self.pairs() == Set::<(u64, u64)>::empty()),
    {
        pair_set_is_empty(&self.active_pairs)
    }

    /// The number of active pairs.
    pub fn len(&self) -> (n: usize)
        ensures
            n == self.pairs().len(),
    {
        pair_set_len(&self.active_pairs)
    }
}

/// The adjacency after `a` and `b` are linked: `b` is appended to the list of `a`,
/// then `a` to the list of `b`.
pub open spec fn neighbors_after_link(m: Map<u64, Seq<u64>>, a: u64, b: u64) -> Map<u64, Seq<u64>> {
    let m1 = m.insert(a, list_or_empty(m, a).push(b));
    m1.insert(b, list_or_empty(m1, b).push(a))
}

/// The adjacency after `a` and `b` are unlinked: each drops the other from its list.
pub open spec fn neighbors_after_unlink(m: Map<u64, Seq<u64>>, a: u64, b: u64) -> Map<u64, Seq<u64>> {
    let m1 = if m.contains_key(a) {
        m.insert(a, without(m[a], b))
    } else {
        m
    };
    if m1.contains_key(b) {
        m1.insert(b, without(m1[b], a))
    } else {
        m1
    }
}

/// `b` is listed under `a` exactly when `a` and `b` form one of `pairs`.
pub open spec fn adjacency_matches(pairs: Set<(u64, u64)>, m: Map<u64, Seq<u64>>) -> bool {
    forall|a: u64, b: u64|
        #![trigger list_or_empty(m, a).contains(b)]
        list_or_empty(m, a).contains(b) <==> pairs.contains(pair_key(a, b))
}

proof fn lemma_purge_consistent(pairs: Set<(u64, u64)>, m: Map<u64, Seq<u64>>, entity: u64)
    requires
        adjacency_matches(pairs, m),
        forall|p: (u64, u64)| #[trigger] pairs.contains(p) ==> is_pair_key(p),
    ensures
        adjacency_matches(
            pairs_after_purge(pairs, entity, list_or_empty(m, entity)),
            neighbors_after_purge(m, entity, list_or_empty(m, entity)),
        ),
        forall|p: (u64, u64)| #[trigger]
            pairs_after_purge(pairs, entity, list_or_empty(m, entity)).contains(p) ==> !involves(
                p,
                entity,
            ),
        forall|x: u64| #[trigger]
            list_or_empty(m, entity).contains(x) <==> pairs.contains(pair_key(entity, x)),
{
    let others = list_or_empty(m, entity);
    let post_pairs = pairs_after_purge(pairs, entity, others);
    let post_map = neighbors_after_purge(m, entity, others);
    assert forall|x: u64| #[trigger] others.contains(x) <==> pairs.contains(pair_key(entity, x)) by {
        assert(list_or_empty(m, entity).contains(x) <==> pairs.contains(pair_key(entity, x)));
    }
    assert forall|p: (u64, u64)| #[trigger] post_pairs.contains(p) implies !involves(p, entity) by {
        if involves(p, entity) && pairs.contains(p) {
            let x = if p.0 == entity { p.1 } else { p.0 };
            assert(is_pair_key(p));
            assert(p == pair_key(entity, x));
            assert(list_or_empty(m, entity).contains(x) <==> pairs.contains(pair_key(entity, x)));
            assert(others.contains(x));
            let j = choose|j: int| 0 <= j < others.len() && others[j] == x;
            assert(p == pair_key(entity, others[j]));
        }
    }
    assert forall|a: u64, b: u64|
        #![trigger list_or_empty(post_map, a).contains(b)]
        list_or_empty(post_map, a).contains(b) <==> post_pairs.contains(pair_key(a, b)) by {
        assert(list_or_empty(m, a).contains(b) <==> pairs.contains(pair_key(a, b)));
        assert(list_or_empty(m, b).contains(a) <==> pairs.contains(pair_key(b, a)));
        assert(pair_key(a, b) == pair_key(b, a));
        if a == entity {
            assert(!post_map.contains_key(a));
            if post_pairs.contains(pair_key(a, b)) {
                assert(others.contains(b));
                let j = choose|j: int| 0 <= j < others.len() && others[j] == b;
                assert(pair_key(a, b) == pair_key(entity, others[j]));
            }
        } else {
            let list = list_or_empty(m, a);
            lemma_without_contains(list, entity, b);
            if b == entity {
                if post_pairs.contains(pair_key(a, b)) {
                    assert(pairs.contains(pair_key(entity, a)));
                    assert(others.contains(a));
                    let j = choose|j: int| 0 <= j < others.len() && others[j] == a;
                    assert(pair_key(a, b) == pair_key(entity, others[j]));
                }
            } else {
                if exists|j: int| 0 <= j < others.len() && pair_key(a, b) == pair_key(entity, others[j]) {
                    let j = choose|j: int| 0 <= j < others.len() && pair_key(a, b) == pair_key(entity, others[j]);
                    assert(false);
                }
            }
        }
    }
}

/// The active pairs after `entity` is purged with the given neighbour list.
pub open spec fn pairs_after_purge(pairs: Set<(u64, u64)>, entity: u64, others: Seq<u64>) -> Set<
    (u64, u64),
> {
    Set::new(
        |p: (u64, u64)|
            pairs.contains(p) && !(exists|j: int|
                0 <= j < others.len() && p == pair_key(entity, others[j])),
    )
}

/// The adjacency after `entity` is purged: its own entry goes, and every listed
/// neighbour drops it from its list.
pub open spec fn neighbors_after_purge(m: Map<u64, Seq<u64>>, entity: u64, others: Seq<u64>) -> Map<
    u64,
    Seq<u64>,
> {
    Map::new(
        |k: u64| m.contains_key(k) && k != entity,
        |k: u64|
            if others.contains(k) {
                without(m[k], entity)
            } else {
                m[k]
            },
    )
}

proof fn lemma_push_contains<T>(s: Seq<T>, x: T, y: T)
    ensures
        s.push(x).contains(y) <==> (s.contains(y) || y == x),
{
    if y == x {
        assert(s.push(x)[s.len() as int] == y);
    }
    if s.contains(y) {
        let i = choose|i: int| 0 <= i < s.len() && s[i] == y;
        assert(s.push(x)[i] == y);
    }
    if s.push(x).contains(y) && y != x {
        let i = choose|i: int| 0 <= i < s.len() + 1 && s.push(x)[i] == y;
        assert(s[i] == y);
    }
}

proof fn lemma_without_twice(s: Seq<u64>, x: u64)
    ensures
        without(without(s, x), x) == without(s, x),
    decreases s.len(),
{
    reveal_with_fuel(Seq::<_>::filter, 1);
    if s.len() > 0 {
        lemma_without_twice(s.drop_last(), x);
        let w = without(s.drop_last(), x);
        if s.last() != x {
            assert(w.push(s.last()).drop_last() =~= w);
        }
    }
}

proof fn lemma_purge_step(
    m: Map<u64, Seq<u64>>,
    entity: u64,
    done: Seq<u64>,
    other: u64,
    mid: Map<u64, Seq<u64>>,
    post: Map<u64, Seq<u64>>,
)
    requires
        mid == neighbors_after_purge(m, entity, done),
        post == (if mid.contains_key(other) {
            mid.insert(other, without(mid[other], entity))
        } else {
            mid
        }),
    ensures
        post == neighbors_after_purge(m, entity, done.push(other)),
{
    let target = neighbors_after_purge(m, entity, done.push(other));
    assert forall|k: u64| #[trigger] target.contains_key(k) implies post.contains_key(k)
        && post[k] == target[k] by {
        lemma_push_contains(done, other, k);
        if k == other && done.contains(k) {
            lemma_without_twice(m[k], entity);
        }
    }
    assert(post =~= target);
}

proof fn lemma_without_contains(s: Seq<u64>, x: u64, y: u64)
    ensures
        without(s, x).contains(y) <==> (s.contains(y) && y != x),
{
    let pred = differs_from(x);
    if s.contains(y) && y != x {
        let i = choose|i: int| 0 <= i < s.len() && s[i] == y;
        s.lemma_filter_contains(pred, i);
    }
    if without(s, x).contains(y) {
        s.lemma_filter_contains_rev(pred, y);
        let f = s.filter(pred);
        let j = choose|j: int| 0 <= j < f.len() && f[j] == y;
        s.lemma_filter_pred(pred, j);
    }
}

proof fn lemma_add_keeps_consistency(pre: &CollisionState, post: &CollisionState, origin: u64, target: u64)
    requires
        !pre.pairs().contains(pair_key(origin, target)),
        post.pairs() == pre.pairs().insert(pair_key(origin, target)),
        post.neighbors() == neighbors_after_link(pre.neighbors(), origin, target),
    ensures
        pre.neighbors_consistent() ==> post.neighbors_consistent(),
{
    if pre.neighbors_consistent() {
        assert forall|a: u64, b: u64|
            list_or_empty(post.neighbors(), a).contains(b) <==> post.pairs().contains(
                pair_key(a, b),
            ) by {
            let old_list = list_or_empty(pre.neighbors(), a);
            assert(old_list.contains(b) <==> pre.pairs().contains(pair_key(a, b)));
            let new_list = list_or_empty(post.neighbors(), a);
            if a == origin && a == target {
                assert(new_list =~= old_list.push(target).push(origin));
                assert(new_list.contains(b) <==> (old_list.contains(b) || b == origin)) by {
                    if b == origin {
                        assert(new_list[new_list.len() - 1] == b);
                    }
                    if new_list.contains(b) && b != origin {
                        let i = choose|i: int| 0 <= i < new_list.len() && new_list[i] == b;
                        assert(old_list[i] == b);
                    }
                    if old_list.contains(b) {
                        let i = choose|i: int| 0 <= i < old_list.len() && old_list[i] == b;
                        assert(new_list[i] == b);
                    }
                }
            } else if a == origin {
                assert(new_list =~= old_list.push(target));
                assert(new_list.contains(b) <==> (old_list.contains(b) || b == target)) by {
                    if b == target {
                        assert(new_list[new_list.len() - 1] == b);
                    }
                    if new_list.contains(b) && b != target {
                        let i = choose|i: int| 0 <= i < new_list.len() && new_list[i] == b;
                        assert(old_list[i] == b);
                    }
                    if old_list.contains(b) {
                        let i = choose|i: int| 0 <= i < old_list.len() && old_list[i] == b;
                        assert(new_list[i] == b);
                    }
                }
            } else if a == target {
                assert(new_list =~= old_list.push(origin));
                assert(new_list.contains(b) <==> (old_list.contains(b) || b == origin)) by {
                    if b == origin {
                        assert(new_list[new_list.len() - 1] == b);
                    }
                    if new_list.contains(b) && b != origin {
                        let i = choose|i: int| 0 <= i < new_list.len() && new_list[i] == b;
                        assert(old_list[i] == b);
                    }
                    if old_list.contains(b) {
                        let i = choose|i: int| 0 <= i < old_list.len() && old_list[i] == b;
                        assert(new_list[i] == b);
                    }
                }
            } else {
                assert(new_list == old_list);
                assert(pair_key(a, b) != pair_key(origin, target));
            }
        }
    }
}

proof fn lemma_remove_keeps_consistency(pre: &CollisionState, post: &CollisionState, origin: u64, target: u64)
    requires
        pre.pairs().contains(pair_key(origin, target)),
        post.pairs() == pre.pairs().remove(pair_key(origin, target)),
        post.neighbors() == neighbors_after_unlink(pre.neighbors(), origin, target),
    ensures
        pre.neighbors_consistent() ==> post.neighbors_consistent(),
{
    if pre.neighbors_consistent() {
        assert forall|a: u64, b: u64|
            list_or_empty(post.neighbors(), a).contains(b) <==> post.pairs().contains(
                pair_key(a, b),
            ) by {
            let old_list = list_or_empty(pre.neighbors(), a);
            assert(old_list.contains(b) <==> pre.pairs().contains(pair_key(a, b)));
            let new_list = list_or_empty(post.neighbors(), a);
            if a == origin && a == target {
                lemma_without_contains(old_list, target, b);
                lemma_without_contains(without(old_list, target), origin, b);
            } else if a == origin {
                lemma_without_contains(old_list, target, b);
            } else if a == target {
                lemma_without_contains(old_list, origin, b);
            } else {
                assert(new_list == old_list);
                assert(pair_key(a, b) != pair_key(origin, target));
            }
        }
    }
}

/// A collision signal from the engine, its two bodies resolved to entities where
/// the node index knows them.
#[derive(Debug, Clone, Copy, PartialEq, Eq)]
pub struct CollisionEvent {
    /// The bodies started touching; otherwise they stopped.
    pub started: bool,
    pub origin: Option<u64>,
    pub target: Option<u64>,
}

/// A collision start or end between two entities, as reported to systems.
#[derive(Debug, Clone, Copy, PartialEq, Eq)]
pub struct CollisionMessage {
    pub started: bool,
    pub entity1: u64,
    pub entity2: u64,
}

/// From this many queued signals on, a frame updates the pairs alone and
/// rebuilds the adjacency lists once at the end.
pub const COLLISION_NEIGHBOR_REBUILD_THRESHOLD: usize = 512;

/// The active pairs after one signal: resolved signals add or drop their pair.
pub open spec fn pairs_after_event(p: Set<(u64, u64)>, e: CollisionEvent) -> Set<(u64, u64)> {
    match (e.origin, e.target) {
        (Some(o), Some(t)) => if e.started {
            p.insert(pair_key(o, t))
        } else {
            p.remove(pair_key(o, t))
        },
        _ => p,
    }
}

/// The message one signal gives: only a resolved signal that changes the pairs reports.
pub open spec fn event_message(p: Set<(u64, u64)>, e: CollisionEvent) -> Option<CollisionMessage> {
    match (e.origin, e.target) {
        (Some(o), Some(t)) => if e.started != p.contains(pair_key(o, t)) {
            Some(CollisionMessage { started: e.started, entity1: o, entity2: t })
        } else {
            None
        },
        _ => None,
    }
}

/// The active pairs after the signals, in order.
pub open spec fn pairs_after_events(p: Set<(u64, u64)>, evs: Seq<CollisionEvent>) -> Set<(u64, u64)>
    decreases evs.len(),
{
    if evs.len() == 0 {
        p
    } else {
        pairs_after_event(pairs_after_events(p, evs.drop_last()), evs.last())
    }
}

/// The messages the signals give, in order.
pub open spec fn messages_of_events(p: Set<(u64, u64)>, evs: Seq<CollisionEvent>) -> Seq<
    CollisionMessage,
>
    decreases evs.len(),
{
    if evs.len() == 0 {
        Seq::empty()
    } else {
        let earlier = messages_of_events(p, evs.drop_last());
        match event_message(pairs_after_events(p, evs.drop_last()), evs.last()) {
            Some(m) => earlier.push(m),
            None => earlier,
        }
    }
}

/// The pair keys of the messages of one kind, in order.
pub open spec fn keys_of(msgs: Seq<CollisionMessage>, started: bool) -> Seq<(u64, u64)>
    decreases msgs.len(),
{
    if msgs.len() == 0 {
        Seq::empty()
    } else {
        let earlier = keys_of(msgs.drop_last(), started);
        let m = msgs.last();
        if m.started == started {
            earlier.push(pair_key(m.entity1, m.entity2))
        } else {
            earlier
        }
    }
}

impl CollisionState {
    /// One frame of collision tracking: forgets the previous frame's starts and
    /// ends, then applies the engine's signals in order, skipping those whose
    /// bodies are not entities, and reports each pair that started or ended.
    /// With many signals queued the adjacency lists are rebuilt once at the end
    /// instead of being updated per signal; they agree with the pairs either way.
    pub fn process_events(&mut self, events: &Vec<CollisionEvent>) -> (messages: Vec<
        CollisionMessage,
    >)
        requires
            old(self).wf(),
            old(self).neighbors_consistent(),
        ensures
            final(self).wf(),
            final(self).neighbors_consistent(),
            final(self).pairs() == pairs_after_events(old(self).pairs(), events@),
            messages@ == messages_of_events(old(self).pairs(), events@),
            final(self).started_pairs() == keys_of(messages@, true),
            final(self).ended_pairs() == keys_of(messages@, false),
    {
        self.begin_frame();
        let ghost p0 = self.pairs();
        let rebuild = events.len() >= COLLISION_NEIGHBOR_REBUILD_THRESHOLD;
        let mut messages: Vec<CollisionMessage> = Vec::new();
        let mut i: usize = 0;
        while i < events.len()
            invariant
                i <= events@.len(),
                rebuild == (events@.len() >= COLLISION_NEIGHBOR_REBUILD_THRESHOLD),
                self.wf(),
                !rebuild ==> self.neighbors_consistent(),
                self.pairs() == pairs_after_events(p0, events@.subrange(0, i as int)),
                messages@ == messages_of_events(p0, events@.subrange(0, i as int)),
                self.started_pairs() == keys_of(messages@, true),
                self.ended_pairs() == keys_of(messages@, false),
            decreases events.len() - i,
        {
            let e = events[i];
            let ghost prefix = events@.subrange(0, i as int);
            let ghost next = events@.subrange(0, i + 1);
            assert(next.drop_last() =~= prefix);
            assert(next.last() == e);
            let ghost msgs = messages@;
            match (e.origin, e.target) {
                (Some(origin), Some(target)) => {
                    if e.started {
                        let changed = if rebuild {
                            self.add_collision_without_neighbors(origin, target)
                        } else {
                            self.add_collision(origin, target)
                        };
                        if changed {
                            messages.push(
                                CollisionMessage { started: true, entity1: origin, entity2: target },
                            );
                            assert(messages@.drop_last() =~= msgs);
                        }
                    } else {
                        let changed = if rebuild {
                            self.remove_collision_without_neighbors(origin, target)
                        } else {
                            self.remove_collision(origin, target)
                        };
                        if changed {
                            messages.push(
                                CollisionMessage { started: false, entity1: origin, entity2: target },
                            );
                            assert(messages@.drop_last() =~= msgs);
                        }
                    }
                },
                _ => {},
            }
            i = i + 1;
        }
        assert(events@.subrange(0, i as int) =~= events@);
        if rebuild {
            self.rebuild_entity_collisions();
        }
        assert(messages_of_events(p0, Seq::<CollisionEvent>::empty()) =~= Seq::<CollisionMessage>::empty());
        messages
    }
}

/// A collision is one pair whichever body reports it: the two orders of a
/// pair give the same key.
pub proof fn law_pair_order_irrelevant(a: u64, b: u64)
    ensures
        pair_key(a, b) == pair_key(b, a),
        is_pair_key(pair_key(a, b)),
{
}

/// A start followed by an end of the same two bodies, in either order, leaves
/// the active pairs as they were and reports both, in order.
pub proof fn law_start_then_end(p: Set<(u64, u64)>, a: u64, b: u64)
    requires
        !p.contains(pair_key(a, b)),
    ensures
        ({
            let evs = seq![
                CollisionEvent { started: true, origin: Some(a), target: Some(b) },
                CollisionEvent { started: false, origin: Some(b), target: Some(a) },
            ];
            &&& pairs_after_events(p, evs) == p
            &&& messages_of_events(p, evs) == seq![
                CollisionMessage { started: true, entity1: a, entity2: b },
                CollisionMessage { started: false, entity1: b, entity2: a },
            ]
        }),
{
    let evs = seq![
        CollisionEvent { started: true, origin: Some(a), target: Some(b) },
        CollisionEvent { started: false, origin: Some(b), target: Some(a) },
    ];
    reveal_with_fuel(pairs_after_events, 3);
    reveal_with_fuel(messages_of_events, 3);
    assert(evs.drop_last() =~= seq![evs[0]]);
    assert(evs.drop_last().drop_last() =~= Seq::<CollisionEvent>::empty());
    assert(seq![evs[0]].drop_last() =~= Seq::<CollisionEvent>::empty());
    assert(pair_key(a, b) == pair_key(b, a));
    assert(p.insert(pair_key(a, b)).remove(pair_key(a, b)) =~= p);
    assert(messages_of_events(p, evs) =~= seq![
        CollisionMessage { started: true, entity1: a, entity2: b },
        CollisionMessage { started: false, entity1: b, entity2: a },
    ]);
}

/// Reporting the same collision twice records it once and reports it once.
pub proof fn law_repeated_start_reports_once(p: Set<(u64, u64)>, a: u64, b: u64)
    requires
        !p.contains(pair_key(a, b)),
    ensures
        ({
            let evs = seq![
                CollisionEvent { started: true, origin: Some(a), target: Some(b) },
                CollisionEvent { started: true, origin: Some(b), target: Some(a) },
            ];
            &&& pairs_after_events(p, evs) == p.insert(pair_key(a, b))
            &&& messages_of_events(p, evs) == seq![
                CollisionMessage { started: true, entity1: a, entity2: b },
            ]
        }),
{
    let evs = seq![
        CollisionEvent { started: true, origin: Some(a), target: Some(b) },
        CollisionEvent { started: true, origin: Some(b), target: Some(a) },
    ];
    reveal_with_fuel(pairs_after_events, 3);
    reveal_with_fuel(messages_of_events, 3);
    assert(evs.drop_last() =~= seq![evs[0]]);
    assert(evs.drop_last().drop_last() =~= Seq::<CollisionEvent>::empty());
    assert(seq![evs[0]].drop_last() =~= Seq::<CollisionEvent>::empty());
    assert(pair_key(a, b) == pair_key(b, a));
    assert(p.insert(pair_key(a, b)).insert(pair_key(a, b)) =~= p.insert(pair_key(a, b)));
    assert(messages_of_events(p, evs) =~= seq![
        CollisionMessage { started: true, entity1: a, entity2: b },
    ]);
}

/// A signal whose bodies are not both entities changes nothing and reports nothing.
pub proof fn law_unresolved_signal_ignored(p: Set<(u64, u64)>, e: CollisionEvent)
    requires
        e.origin is None || e.target is None,
    ensures
        pairs_after_events(p, seq![e]) == p,
        messages_of_events(p, seq![e]) == Seq::<CollisionMessage>::empty(),
{
    reveal_with_fuel(pairs_after_events, 2);
    reveal_with_fuel(messages_of_events, 2);
    assert(seq![e].drop_last() =~= Seq::<CollisionEvent>::empty());
    assert(seq![e].last() == e);
}

} // verus!
