//! Input: the mouse buttons the bridge reports, the kinds of input callbacks,
//! and the per-clock snapshots of the engine's input actions.

use crate::text::str_eq;
use vstd::prelude::*;

verus! {

/// Mouse buttons reported by the input bridge.
#[derive(Debug, Clone, Copy, PartialEq, Eq, Hash)]
pub enum MouseButton {
    Left,
    Right,
    Middle,
    WheelUp,
    WheelDown,
    WheelLeft,
    WheelRight,
    Extra1,
    Extra2,
}

/// The button for the engine's mouse button ordinal (`MOUSE_BUTTON_*`); unknown
/// ordinals fall back to `Left`.
pub open spec fn button_for_ordinal(ordinal: i64) -> MouseButton {
    if ordinal == 1 {
        MouseButton::Left
    } else if ordinal == 2 {
        MouseButton::Right
    } else if ordinal == 3 {
        MouseButton::Middle
    } else if ordinal == 4 {
        MouseButton::WheelUp
    } else if ordinal == 5 {
        MouseButton::WheelDown
    } else if ordinal == 6 {
        MouseButton::WheelLeft
    } else if ordinal == 7 {
        MouseButton::WheelRight
    } else if ordinal == 8 {
        MouseButton::Extra1
    } else if ordinal == 9 {
        MouseButton::Extra2
    } else {
        MouseButton::Left
    }
}

impl MouseButton {
    /// The button for the engine's mouse button ordinal; unknown ordinals give `Left`.
    pub fn from_godot_ordinal(ordinal: i64) -> (button: MouseButton)
        ensures
            button == button_for_ordinal(ordinal),
    {
        match ordinal {
            1 => MouseButton::Left,
            2 => MouseButton::Right,
            3 => MouseButton::Middle,
            4 => MouseButton::WheelUp,
            5 => MouseButton::WheelDown,
            6 => MouseButton::WheelLeft,
            7 => MouseButton::WheelRight,
            8 => MouseButton::Extra1,
            9 => MouseButton::Extra2,
            _ => MouseButton::Left,
        }
    }

    /// Whether this is one of the four wheel directions, which the bridge reports
    /// as scrolling rather than as button presses.
    pub fn is_wheel(&self) -> (wheel: bool)
        ensures
            wheel == (*self == MouseButton::WheelUp || *self == MouseButton::WheelDown || *self
                == MouseButton::WheelLeft || *self == MouseButton::WheelRight),
    {
        match self {
            MouseButton::WheelUp | MouseButton::WheelDown | MouseButton::WheelLeft
            | MouseButton::WheelRight => true,
            _ => false,
        }
    }
}

/// Which engine callback delivered an input event.
#[derive(Debug, PartialEq, Eq, Clone, Copy)]
pub enum InputEventType {
    Normal,
    Unhandled,
}

/// System set in which the input actions are polled.
#[derive(Clone, Copy, Debug, PartialEq, Eq, Hash)]
pub struct GodotInputSet;

/// The clock whose snapshot the action queries read.
#[derive(Clone, Copy, PartialEq, Eq, Debug)]
pub enum Clock {
    Process,
    Physics,
}

/// The state of one action when it was last polled. Strengths are held as the
/// bit pattern of an `f32`.
#[derive(Clone, Copy, PartialEq, Eq, Debug)]
pub struct ActionState {
    pub pressed: bool,
    pub just_pressed: bool,
    pub just_released: bool,
    pub strength: u32,
    pub raw_strength: u32,
}

/// The state of an action that is not known: nothing pressed, zero strengths.
pub open spec fn released() -> ActionState {
    ActionState {
        pressed: false,
        just_pressed: false,
        just_released: false,
        strength: 0,
        raw_strength: 0,
    }
}

impl ActionState {
    /// Nothing pressed, zero strengths.
    pub fn released() -> (state: Self)
        ensures
            state == released(),
    {
        ActionState {
            pressed: false,
            just_pressed: false,
            just_released: false,
            strength: 0,
            raw_strength: 0,
        }
    }
}

/// A typed action name, built once and reused.
pub struct Action {
    pub key: String,
}

impl Action {
    /// The action named `name`.
    pub fn new(name: &str) -> (action: Self)
        ensures
            action.key@ == name@,
    {
        Action { key: name.to_owned() }
    }
}

/// How a query names an action: by text, which is reported when unknown, or by a
/// typed `Action`, which is not.
pub struct ActionRef<'a> {
    pub key: &'a str,
    pub warn_if_unknown: bool,
}

impl<'a> ActionRef<'a> {
    /// An action named by text.
    pub fn named(key: &'a str) -> (r: Self)
        ensures
            r.key@ == key@,
            r.warn_if_unknown,
    {
        ActionRef { key, warn_if_unknown: true }
    }

    /// An action named by a typed handle.
    pub fn typed(action: &'a Action) -> (r: Self)
        ensures
            r.key@ == action.key@,
            !r.warn_if_unknown,
    {
        ActionRef { key: action.key.as_str(), warn_if_unknown: false }
    }
}

/// The last polled state of every action, for one clock.
pub struct Snapshot {
    pub actions: Vec<(String, ActionState)>,
}

/// The state stored for `key` (its first entry), if any.
pub open spec fn state_of(actions: Seq<(String, ActionState)>, key: Seq<char>) -> Option<ActionState> {
    if exists|i: int| 0 <= i < actions.len() && actions[i].0@ == key {
        Some(
            actions[choose|i: int|
                0 <= i < actions.len() && actions[i].0@ == key && forall|j: int|
                    0 <= j < i ==> actions[j].0@ != key].1,
        )
    } else {
        None
    }
}

/// Whether each action name occurs once.
pub open spec fn names_unique(actions: Seq<(String, ActionState)>) -> bool {
    forall|i: int, j: int|
        0 <= i < actions.len() && 0 <= j < actions.len() && i != j ==> actions[i].0@
            != actions[j].0@
}

impl Snapshot {
    /// A snapshot that knows no action.
    pub fn new() -> (snapshot: Self)
        ensures
            snapshot.actions@.len() == 0,
    {
        Snapshot { actions: Vec::new() }
    }

    /// The state stored for `key`, if any.
    pub fn get(&self, key: &str) -> (state: Option<ActionState>)
        ensures
            state == state_of(self.actions@, key@),
    {
        let mut i: usize = 0;
        while i < self.actions.len()
            invariant
                i <= self.actions.len(),
                forall|j: int| 0 <= j < i ==> self.actions@[j].0@ != key@,
            decreases self.actions.len() - i,
        {
            if str_eq(self.actions[i].0.as_str(), key) {
                proof {
                    let c = choose|c: int|
                        0 <= c < self.actions.len() && self.actions@[c].0@ == key@ && forall|j: int|
                            0 <= j < c ==> self.actions@[j].0@ != key@;
                    if c < i {
                    } else if c > i {
                        assert(self.actions@[i as int].0@ == key@);
                    }
                }
                return Some(self.actions[i].1);
            }
            i = i + 1;
        }
        None
    }

    /// Stores `state` for `key`, replacing the state it had.
    pub fn insert(&mut self, key: &str, state: ActionState)
        requires
            names_unique(old(self).actions@),
        ensures
            names_unique(final(self).actions@),
            state_of(final(self).actions@, key@) == Some(state),
            forall|k: Seq<char>| k != key@ ==> state_of(final(self).actions@, k) == state_of(
                old(self).actions@,
                k,
            ),
    {
        let ghost before = self.actions@;
        assert(before == old(self).actions@);
        let mut i: usize = 0;
        while i < self.actions.len()
            invariant
                i <= self.actions.len(),
                self.actions@ == before,
                before == old(self).actions@,
                names_unique(before),
                forall|j: int| 0 <= j < i ==> self.actions@[j].0@ != key@,
            decreases self.actions.len() - i,
        {
            if str_eq(self.actions[i].0.as_str(), key) {
                assert(before[i as int].0@ == key@);
                let name = self.actions[i].0.clone();
                self.actions.set(i, (name, state));
                proof {
                    let after = self.actions@;
                    assert forall|a: int, b: int|
                        0 <= a < after.len() && 0 <= b < after.len() && a != b implies after[a].0@
                            != after[b].0@ by {
                        assert(before[a].0@ != before[b].0@);
                    }
                    assert(after[i as int].0@ == key@);
                    lemma_unique_state(after, i as int);
                    assert forall|k: Seq<char>| k != key@ implies state_of(after, k) == state_of(
                        before,
                        k,
                    ) by {
                        if exists|p: int| 0 <= p < before.len() && before[p].0@ == k {
                            let p = choose|p: int| 0 <= p < before.len() && before[p].0@ == k;
                            lemma_unique_state(before, p);
                            assert(p != i);
                            assert(after[p] == before[p]);
                            lemma_unique_state(after, p);
                        } else {
                            assert forall|p: int| 0 <= p < after.len() implies after[p].0@ != k by {
                                if p != i {
                                    assert(after[p] == before[p]);
                                }
                            }
                        }
                    }
                }
                return;
            }
            i = i + 1;
        }
        self.actions.push((key.to_owned(), state));
        proof {
            let after = self.actions@;
            assert forall|a: int, b: int|
                0 <= a < after.len() && 0 <= b < after.len() && a != b implies after[a].0@
                    != after[b].0@ by {
                if a < before.len() && b < before.len() {
                    assert(before[a].0@ != before[b].0@);
                }
            }
            lemma_unique_state(after, before.len() as int);
            assert forall|k: Seq<char>| k != key@ implies state_of(after, k) == state_of(before, k) by {
                if exists|p: int| 0 <= p < before.len() && before[p].0@ == k {
                    let p = choose|p: int| 0 <= p < before.len() && before[p].0@ == k;
                    lemma_unique_state(before, p);
                    assert(after[p] == before[p]);
                    lemma_unique_state(after, p);
                } else {
                    assert forall|p: int| 0 <= p < after.len() implies after[p].0@ != k by {
                        if p < before.len() {
                            assert(after[p] == before[p]);
                        }
                    }
                }
            }
        }
    }
}

proof fn lemma_unique_state(actions: Seq<(String, ActionState)>, p: int)
    requires
        names_unique(actions),
        0 <= p < actions.len(),
    ensures
        state_of(actions, actions[p].0@) == Some(actions[p].1),
{
    let key = actions[p].0@;
    assert(0 <= p < actions.len() && actions[p].0@ == key && forall|j: int|
        0 <= j < p ==> actions[j].0@ != key);
    let c = choose|c: int|
        0 <= c < actions.len() && actions[c].0@ == key && forall|j: int|
            0 <= j < c ==> actions[j].0@ != key;
    if c != p {
        assert(actions[c].0@ == actions[p].0@);
    }
}

/// The action snapshots of both clocks and the clock that queries read.
pub struct GodotActions {
    pub process: Snapshot,
    pub physics: Snapshot,
    pub active: Clock,
    pub action_keys: Vec<String>,
}

impl GodotActions {
    /// No known action; queries read the process clock.
    pub fn new() -> (actions: Self)
        ensures
            actions.active == Clock::Process,
            actions.process.actions@.len() == 0,
            actions.physics.actions@.len() == 0,
            actions.action_keys@.len() == 0,
    {
        GodotActions {
            process: Snapshot::new(),
            physics: Snapshot::new(),
            active: Clock::Process,
            action_keys: Vec::new(),
        }
    }

    /// The snapshot of the active clock.
    pub open spec fn active_snapshot(&self) -> Seq<(String, ActionState)> {
        match self.active {
            Clock::Process => self.process.actions@,
            Clock::Physics => self.physics.actions@,
        }
    }

    /// What a query for `key` answers: the stored state, or the released state.
    pub open spec fn answer(&self, key: Seq<char>) -> ActionState {
        match state_of(self.active_snapshot(), key) {
            Some(state) => state,
            None => released(),
        }
    }

    /// The snapshot that queries read.
    pub fn snapshot(&self) -> (snapshot: &Snapshot)
        ensures
            snapshot.actions@ == self.active_snapshot(),
    {
        match self.active {
            Clock::Process => &self.process,
            Clock::Physics => &self.physics,
        }
    }

    /// The state of an action on the active clock; an unknown action is released.
    pub fn lookup(&self, r: ActionRef<'_>) -> (state: ActionState)
        ensures
            state == self.answer(r.key@),
    {
        match self.snapshot().get(r.key) {
            Some(state) => state,
            None => ActionState::released(),
        }
    }

    /// Whether the query should be reported as naming an unknown action: it names
    /// one by text and the active snapshot does not know it.
    pub fn reports_unknown(&self, r: ActionRef<'_>) -> (report: bool)
        ensures
            report == (r.warn_if_unknown && state_of(self.active_snapshot(), r.key@) is None),
    {
        r.warn_if_unknown && self.snapshot().get(r.key).is_none()
    }

    /// Whether the action is held on the active clock.
    pub fn pressed(&self, action: ActionRef<'_>) -> (held: bool)
        ensures
            held == self.answer(action.key@).pressed,
    {
        self.lookup(action).pressed
    }

    /// Whether the action was pressed since the previous poll of the active clock.
    pub fn just_pressed(&self, action: ActionRef<'_>) -> (rising: bool)
        ensures
            rising == self.answer(action.key@).just_pressed,
    {
        self.lookup(action).just_pressed
    }

    /// Whether the action was released since the previous poll of the active clock.
    pub fn just_released(&self, action: ActionRef<'_>) -> (falling: bool)
        ensures
            falling == self.answer(action.key@).just_released,
    {
        self.lookup(action).just_released
    }

    /// The strength of the action on the active clock, as the bit pattern of an `f32`.
    pub fn strength(&self, action: ActionRef<'_>) -> (strength: u32)
        ensures
            strength == self.answer(action.key@).strength,
    {
        self.lookup(action).strength
    }

    /// The raw strength of the action on the active clock, as the bit pattern of an `f32`.
    pub fn raw_strength(&self, action: ActionRef<'_>) -> (strength: u32)
        ensures
            strength == self.answer(action.key@).raw_strength,
    {
        self.lookup(action).raw_strength
    }

    /// Makes queries read the snapshot of `clock`.
    pub fn set_active(&mut self, clock: Clock)
        ensures
            final(self).active == clock,
            final(self).process == old(self).process,
            final(self).physics == old(self).physics,
            final(self).action_keys@ == old(self).action_keys@,
    {
        self.active = clock;
    }

    /// Stores the polled `state` of `key` in the snapshot of `clock`.
    pub fn record(&mut self, clock: Clock, key: &str, state: ActionState)
        requires
            names_unique(old(self).process.actions@),
            names_unique(old(self).physics.actions@),
        ensures
            names_unique(final(self).process.actions@),
            names_unique(final(self).physics.actions@),
            final(self).active == old(self).active,
            final(self).action_keys@ == old(self).action_keys@,
            clock == Clock::Process ==> {
                &&& state_of(final(self).process.actions@, key@) == Some(state)
                &&& forall|k: Seq<char>|
                    k != key@ ==> state_of(final(self).process.actions@, k) == state_of(
                        old(self).process.actions@,
                        k,
                    )
                &&& final(self).physics.actions@ == old(self).physics.actions@
            },
            clock == Clock::Physics ==> {
                &&& state_of(final(self).physics.actions@, key@) == Some(state)
                &&& forall|k: Seq<char>|
                    k != key@ ==> state_of(final(self).physics.actions@, k) == state_of(
                        old(self).physics.actions@,
                        k,
                    )
                &&& final(self).process.actions@ == old(self).process.actions@
            },
    {
        match clock {
            Clock::Process => self.process.insert(key, state),
            Clock::Physics => self.physics.insert(key, state),
        }
    }
}

} // verus!
