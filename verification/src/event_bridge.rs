//! Decisions of the typed event bridge: the system set that drains it and the
//! per-name gate that keeps repeated warnings from flooding the log.

use crate::text::str_eq;
use vstd::prelude::*;

verus! {

/// System set in which queued Godot events are drained and triggered.
#[derive(Debug, Clone, Copy, PartialEq, Eq, Hash)]
pub enum EventBridgeSet {
    Drain,
}

/// Whether `n` is a power of two.
pub open spec fn is_power_of_two(n: nat) -> bool
    decreases n,
{
    if n == 0 {
        false
    } else if n == 1 {
        true
    } else {
        n % 2 == 0 && is_power_of_two(n / 2)
    }
}

/// Whether `n` is a power of two (1, 2, 4, 8, ...).
pub fn power_of_two(n: u64) -> (result: bool)
    ensures
        result == is_power_of_two(n as nat),
{
    if n == 0 {
        return false;
    }
    let mut m = n;
    while m > 1 && m % 2 == 0
        invariant
            m > 0,
            is_power_of_two(m as nat) == is_power_of_two(n as nat),
        decreases m,
    {
        m = m / 2;
    }
    m == 1
}

/// Counts, per name, how often a warning was asked for, and lets the 1st, 2nd,
/// 4th, 8th, ... request through.
pub struct RateLimitedWarner {
    seen: Vec<(String, u64)>,
}

impl RateLimitedWarner {
    /// How often a warning was asked for, per name that was seen.
    pub closed spec fn counts(&self) -> Map<Seq<char>, u64> {
        Map::new(
            |name: Seq<char>| exists|i: int| 0 <= i < self.seen.len() && self.seen@[i].0@ == name,
            |name: Seq<char>|
                self.seen@[choose|i: int| 0 <= i < self.seen.len() && self.seen@[i].0@ == name].1,
        )
    }

    /// Each name is recorded once.
    pub closed spec fn wf(&self) -> bool {
        forall|i: int, j: int|
            0 <= i < self.seen.len() && 0 <= j < self.seen.len() && i != j ==> self.seen@[i].0@
                != self.seen@[j].0@
    }

    /// How often a warning for `name` was asked for so far.
    pub open spec fn count_of(&self, name: Seq<char>) -> nat {
        if self.counts().contains_key(name) {
            self.counts()[name] as nat
        } else {
            0
        }
    }

    /// A gate that has seen no name.
    pub fn new() -> (warner: Self)
        ensures
            warner.wf(),
            warner.counts() == Map::<Seq<char>, u64>::empty(),
    {
        let warner = RateLimitedWarner { seen: Vec::new() };
        assert(warner.counts() =~= Map::<Seq<char>, u64>::empty());
        warner
    }

    /// How often a warning for `name` was asked for so far.
    pub fn count(&self, name: &str) -> (n: u64)
        requires
            self.wf(),
        ensures
            n == self.count_of(name@),
    {
        let mut i: usize = 0;
        while i < self.seen.len()
            invariant
                i <= self.seen.len(),
                self.wf(),
                forall|j: int| 0 <= j < i ==> self.seen@[j].0@ != name@,
            decreases self.seen.len() - i,
        {
            if str_eq(self.seen[i].0.as_str(), name) {
                proof {
                    assert(self.counts().contains_key(name@));
                    let k = choose|k: int| 0 <= k < self.seen.len() && self.seen@[k].0@ == name@;
                    assert(k == i);
                }
                return self.seen[i].1;
            }
            i = i + 1;
        }
        proof {
            assert(!self.counts().contains_key(name@));
        }
        0
    }

    /// Counts one more request for `name`; returns whether this request should be
    /// logged, which is when the count is a power of two.
    pub fn should_log(&mut self, name: &str) -> (log: bool)
        requires
            old(self).wf(),
            old(self).count_of(name@) < u64::MAX,
        ensures
            final(self).wf(),
            final(self).counts() == old(self).counts().insert(
                name@,
                (old(self).count_of(name@) + 1) as u64,
            ),
            log == is_power_of_two(old(self).count_of(name@) + 1),
    {
        let mut i: usize = 0;
        while i < self.seen.len()
            invariant
                i <= self.seen.len(),
                self.seen == old(self).seen,
                old(self).wf(),
                old(self).count_of(name@) < u64::MAX,
                forall|j: int| 0 <= j < i ==> self.seen@[j].0@ != name@,
            decreases self.seen.len() - i,
        {
            if str_eq(self.seen[i].0.as_str(), name) {
                proof {
                    assert(self.counts().contains_key(name@));
                    let k = choose|k: int| 0 <= k < self.seen.len() && self.seen@[k].0@ == name@;
                    assert(k == i);
                    assert(old(self).count_of(name@) == self.seen@[i as int].1);
                }
                let count = self.seen[i].1 + 1;
                let key = self.seen[i].0.clone();
                let ghost before = self.seen@;
                self.seen.set(i, (key, count));
                proof {
                    assert forall|a: int, b: int|
                        0 <= a < self.seen.len() && 0 <= b < self.seen.len() && a != b implies self.seen@[a].0@
                            != self.seen@[b].0@ by {
                        assert(before[a].0@ != before[b].0@);
                    }
                    assert forall|n: Seq<char>|
                        #![trigger self.counts().contains_key(n)]
                        self.counts().contains_key(n) == old(self).counts().insert(
                            name@,
                            count,
                        ).contains_key(n) by {
                        if exists|k: int| 0 <= k < before.len() && before[k].0@ == n {
                            let k = choose|k: int| 0 <= k < before.len() && before[k].0@ == n;
                            assert(self.seen@[k].0@ == n);
                        }
                        if exists|k: int| 0 <= k < self.seen.len() && self.seen@[k].0@ == n {
                            let k = choose|k: int| 0 <= k < self.seen.len() && self.seen@[k].0@ == n;
                            assert(before[k].0@ == n);
                        }
                    }
                    assert forall|n: Seq<char>| #[trigger]
                        self.counts().contains_key(n) implies self.counts()[n] == old(
                        self,
                    ).counts().insert(name@, count)[n] by {
                        let k = choose|k: int| 0 <= k < self.seen.len() && self.seen@[k].0@ == n;
                        assert(before[k].0@ == n);
                        if n != name@ {
                            let k2 = choose|k2: int|
                                0 <= k2 < before.len() && before[k2].0@ == n;
                            assert(k2 == k);
                        }
                    }
                    assert(self.counts() =~= old(self).counts().insert(name@, count));
                }
                return power_of_two(count);
            }
            i = i + 1;
        }
        let ghost before = self.seen@;
        self.seen.push((name.to_owned(), 1));
        proof {
            assert(!old(self).counts().contains_key(name@));
            assert forall|a: int, b: int|
                0 <= a < self.seen.len() && 0 <= b < self.seen.len() && a != b implies self.seen@[a].0@
                    != self.seen@[b].0@ by {
                if a < before.len() && b < before.len() {
                    assert(before[a].0@ != before[b].0@);
                }
            }
            assert forall|n: Seq<char>|
                #![trigger self.counts().contains_key(n)]
                self.counts().contains_key(n) == old(self).counts().insert(
                    name@,
                    1,
                ).contains_key(n) by {
                if exists|k: int| 0 <= k < before.len() && before[k].0@ == n {
                    let k = choose|k: int| 0 <= k < before.len() && before[k].0@ == n;
                    assert(self.seen@[k].0@ == n);
                }
                if n == name@ {
                    assert(self.seen@[before.len() as int].0@ == n);
                }
                if exists|k: int| 0 <= k < self.seen.len() && self.seen@[k].0@ == n {
                    let k = choose|k: int| 0 <= k < self.seen.len() && self.seen@[k].0@ == n;
                    if k < before.len() {
                        assert(before[k].0@ == n);
                    }
                }
            }
            assert forall|n: Seq<char>| #[trigger]
                self.counts().contains_key(n) implies self.counts()[n] == old(self).counts().insert(
                name@,
                1,
            )[n] by {
                let k = choose|k: int| 0 <= k < self.seen.len() && self.seen@[k].0@ == n;
                if n == name@ {
                    assert(self.seen@[before.len() as int].0@ == n);
                } else {
                    assert(k < before.len());
                    assert(before[k].0@ == n);
                    let k2 = choose|k2: int| 0 <= k2 < before.len() && before[k2].0@ == n;
                    assert(k2 == k);
                }
            }
            assert(self.counts() =~= old(self).counts().insert(name@, 1));
        }
        true
    }
}

} // verus!
