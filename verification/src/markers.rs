//! Markers shared by the engine plugins, and lookup of an entity by its name.

use crate::text::str_eq;
use vstd::prelude::*;

verus! {

/// Marker that pins the systems using it to the engine's main thread.
#[derive(Debug, Clone, Copy, Default)]
pub struct GodotMainThread;

/// Marker of a component node that has not yet been moved onto its parent entity.
#[derive(Debug, Clone, Copy, Default)]
pub struct UninitializedBevyComponentNode;

/// A component to take from a component node's entity and put on its parent.
#[derive(Debug, Clone, Copy, PartialEq, Eq)]
pub struct ComponentMove {
    /// The node's entity, which also loses its uninitialized marker.
    pub from: u64,
    /// The parent entity that receives the component.
    pub to: u64,
}

/// For each uninitialized component node that carries the component, given as
/// its entity and its parent, the move of the component onto the parent, in order.
pub fn move_component_from_child_to_parent(nodes: &Vec<(u64, u64)>) -> (moves: Vec<ComponentMove>)
    ensures
        moves@.len() == nodes@.len(),
        forall|i: int|
            0 <= i < nodes@.len() ==> #[trigger] moves@[i] == (ComponentMove {
                from: nodes@[i].0,
                to: nodes@[i].1,
            }),
{
    let mut moves: Vec<ComponentMove> = Vec::new();
    let mut i: usize = 0;
    while i < nodes.len()
        invariant
            i <= nodes@.len(),
            moves@.len() == i,
            forall|j: int|
                0 <= j < i ==> #[trigger] moves@[j] == (ComponentMove {
                    from: nodes@[j].0,
                    to: nodes@[j].1,
                }),
        decreases nodes.len() - i,
    {
        let (child, parent) = nodes[i];
        moves.push(ComponentMove { from: child, to: parent });
        i = i + 1;
    }
    moves
}

/// Whether the prefix of the main schedule last ran from the process callback
/// rather than from a physics step.
#[derive(Debug, Clone, Copy, Default, PartialEq, Eq)]
pub struct ProcessFallbackPrefix(pub bool);

/// Whether the last prefix of the main schedule ran from the process callback;
/// without the resource it is taken to have.
pub fn prefix_ran_in_process_fallback(flag: Option<ProcessFallbackPrefix>) -> (ran: bool)
    ensures
        ran == match flag {
            Some(f) => f.0,
            None => true,
        },
{
    match flag {
        Some(f) => f.0,
        None => true,
    }
}

/// System set that drains the mailboxes of engine nodes.
#[derive(Debug, Clone, Copy, PartialEq, Eq, Hash)]
pub enum GodotMailboxSet {
    /// Reads script-side mailbox state from the nodes and emits messages.
    Drain,
}

/// One argument of an engine signal: the name of its type and its text.
#[derive(Debug, Clone)]
pub struct GodotSignalArgument {
    pub value_type: String,
    pub value: String,
}

/// The item paired with the first entry whose name is `name`.
pub open spec fn first_named<T>(entries: Seq<(String, T)>, name: Seq<char>) -> Option<T> {
    if exists|i: int| 0 <= i < entries.len() && entries[i].0@ == name {
        Some(
            entries[choose|i: int|
                0 <= i < entries.len() && entries[i].0@ == name && forall|j: int|
                    0 <= j < i ==> entries[j].0@ != name].1,
        )
    } else {
        None
    }
}

/// Finds, among named entries, the item of the first one with a given name.
pub trait FindEntityByNameExt<T> {
    fn find_entity_by_name(self, name: &str) -> Option<T>;
}

impl<T: Copy> FindEntityByNameExt<T> for &Vec<(String, T)> {
    /// The item of the first entry named `name`, if any.
    fn find_entity_by_name(self, name: &str) -> (found: Option<T>)
        ensures
            found == first_named(self@, name@),
    {
        let mut i: usize = 0;
        while i < self.len()
            invariant
                i <= self.len(),
                forall|j: int| 0 <= j < i ==> self@[j].0@ != name@,
            decreases self.len() - i,
        {
            if str_eq(self[i].0.as_str(), name) {
                proof {
                    let c = choose|c: int|
                        0 <= c < self.len() && self@[c].0@ == name@ && forall|j: int|
                            0 <= j < c ==> self@[j].0@ != name@;
                    if c > i {
                        assert(self@[i as int].0@ == name@);
                    }
                }
                return Some(self[i].1);
            }
            i = i + 1;
        }
        None
    }
}

} // verus!
