//! What each engine callback runs of the Bevy main schedule. The main schedules
//! are split at the fixed loop: the prefix (First, PreUpdate, ...) runs once
//! per render frame, in the first physics step of the frame or, on a frame
//! without physics steps, in the process callback as a fallback; each physics
//! step runs the fixed loop once; the process callback runs the suffix
//! (Update, PostUpdate, Last, ...). Startup runs once, in the first callback.

use vstd::prelude::*;

verus! {

/// What the host has run so far.
#[derive(Debug, Clone, Copy, PartialEq, Eq)]
pub struct FrameHost {
    /// The startup schedules ran.
    pub started: bool,
    /// The prefix ran in a physics step of the current render frame.
    pub prefix_done_this_frame: bool,
}

/// What one callback runs, in this order: startup, the prefix, one fixed step,
/// the suffix. `process_fallback` marks a prefix run by the process callback.
#[derive(Debug, Clone, Copy, PartialEq, Eq)]
pub struct FrameWork {
    pub startup: bool,
    pub prefix: bool,
    pub process_fallback: bool,
    pub fixed_step: bool,
    pub suffix: bool,
}

/// The engine callbacks that drive the host.
#[derive(Debug, Clone, Copy, PartialEq, Eq)]
pub enum Callback {
    Physics,
    Process,
}

/// What a callback runs from state `h`.
pub open spec fn work_of(h: FrameHost, c: Callback) -> FrameWork {
    match c {
        Callback::Physics => FrameWork {
            startup: !h.started,
            prefix: !h.prefix_done_this_frame,
            process_fallback: false,
            fixed_step: true,
            suffix: false,
        },
        Callback::Process => FrameWork {
            startup: !h.started,
            prefix: !h.prefix_done_this_frame,
            process_fallback: !h.prefix_done_this_frame,
            fixed_step: false,
            suffix: true,
        },
    }
}

/// The state after a callback: startup has run; a physics step leaves the
/// prefix done for the frame, the process callback ends the frame.
pub open spec fn after(h: FrameHost, c: Callback) -> FrameHost {
    FrameHost { started: true, prefix_done_this_frame: c == Callback::Physics }
}

/// The state after a sequence of callbacks.
pub open spec fn after_all(h: FrameHost, cs: Seq<Callback>) -> FrameHost
    decreases cs.len(),
{
    if cs.len() == 0 {
        h
    } else {
        after(after_all(h, cs.drop_last()), cs.last())
    }
}

/// What the `i`-th of a sequence of callbacks runs.
pub open spec fn work_at(h: FrameHost, cs: Seq<Callback>, i: int) -> FrameWork {
    work_of(after_all(h, cs.subrange(0, i)), cs[i])
}

/// A render frame: some physics steps, then the process callback.
pub open spec fn frame(steps: nat) -> Seq<Callback> {
    Seq::new(steps, |i: int| Callback::Physics).push(Callback::Process)
}

impl FrameHost {
    /// A host that has run nothing.
    pub fn new() -> (h: Self)
        ensures
            !h.started,
            !h.prefix_done_this_frame,
    {
        FrameHost { started: false, prefix_done_this_frame: false }
    }

    /// A physics step: what it runs.
    pub fn physics_step(&mut self) -> (w: FrameWork)
        ensures
            w == work_of(*old(self), Callback::Physics),
            *final(self) == after(*old(self), Callback::Physics),
    {
        let w = FrameWork {
            startup: !self.started,
            prefix: !self.prefix_done_this_frame,
            process_fallback: false,
            fixed_step: true,
            suffix: false,
        };
        self.started = true;
        self.prefix_done_this_frame = true;
        w
    }

    /// The process callback: what it runs.
    pub fn process(&mut self) -> (w: FrameWork)
        ensures
            w == work_of(*old(self), Callback::Process),
            *final(self) == after(*old(self), Callback::Process),
    {
        let w = FrameWork {
            startup: !self.started,
            prefix: !self.prefix_done_this_frame,
            process_fallback: !self.prefix_done_this_frame,
            fixed_step: false,
            suffix: true,
        };
        self.started = true;
        self.prefix_done_this_frame = false;
        w
    }
}

proof fn lemma_after_all_started(h: FrameHost, cs: Seq<Callback>)
    requires
        cs.len() > 0,
    ensures
        after_all(h, cs).started,
        after_all(h, cs).prefix_done_this_frame == (cs.last() == Callback::Physics),
{
}

/// Startup runs once: in the first callback of a fresh host and in none after it.
pub proof fn law_startup_runs_once(cs: Seq<Callback>, i: int)
    requires
        0 <= i < cs.len(),
    ensures
        work_at(FrameHost { started: false, prefix_done_this_frame: false }, cs, i).startup <==> i
            == 0,
{
    let h = FrameHost { started: false, prefix_done_this_frame: false };
    if i > 0 {
        lemma_after_all_started(h, cs.subrange(0, i));
    } else {
        assert(cs.subrange(0, 0) =~= Seq::<Callback>::empty());
    }
}

proof fn lemma_frame_prefix(h: FrameHost, steps: nat, i: int)
    requires
        !h.prefix_done_this_frame,
        0 <= i <= steps,
    ensures
        after_all(h, frame(steps).subrange(0, i)).prefix_done_this_frame == (i > 0),
        i > 0 ==> after_all(h, frame(steps).subrange(0, i)).started,
{
    let cs = frame(steps).subrange(0, i);
    if i == 0 {
        assert(cs =~= Seq::<Callback>::empty());
    } else {
        assert(cs.last() == Callback::Physics);
        lemma_after_all_started(h, cs);
    }
}

/// Each render frame runs the prefix exactly once and the suffix exactly once:
/// with physics steps, the prefix runs in the first of them; without, the
/// process callback runs it as the fallback. Every physics step runs one fixed
/// step, and the frame ends ready for the next one.
pub proof fn law_prefix_once_per_frame(h: FrameHost, steps: nat, i: int)
    requires
        !h.prefix_done_this_frame,
        0 <= i <= steps,
    ensures
        work_at(h, frame(steps), i).prefix <==> i == 0,
        work_at(h, frame(steps), i).process_fallback <==> (i == 0 && steps == 0),
        work_at(h, frame(steps), i).suffix <==> i == steps,
        work_at(h, frame(steps), i).fixed_step <==> i < steps,
        !after_all(h, frame(steps)).prefix_done_this_frame,
        after_all(h, frame(steps)).started,
{
    lemma_frame_prefix(h, steps, i);
    let f = frame(steps);
    if i < steps {
        assert(f[i] == Callback::Physics);
    } else {
        assert(f[i] == Callback::Process);
    }
    assert(f.drop_last() =~= Seq::new(steps, |k: int| Callback::Physics));
    assert(f.last() == Callback::Process);
}

} // verus!
