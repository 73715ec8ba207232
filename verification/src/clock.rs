//! A repeating interval timer that gates simulation steps. Elapsed time is
//! tracked in whole nanoseconds; overshoot past a period boundary carries
//! into the next period instead of being discarded.
use vstd::prelude::*;
use vstd::arithmetic::div_mod::lemma_mod_sub_multiples_vanish;
use vstd::arithmetic::div_mod::lemma_small_mod;

verus! {

/// Fixed-interval tick gate. While unpaused it accumulates elapsed time and
/// reports "due" once per call whenever at least one period boundary was
/// crossed since the last report.
#[derive(Clone, Copy, PartialEq, Eq, Structural, Debug)]
pub struct StepClock {
    pub period_ns: u64,
    pub elapsed_ns: u64,
    pub paused: bool,
}

impl StepClock {
    /// The clock's internal invariant: a positive period, and time already
    /// accumulated strictly inside the current period.
    pub open spec fn wf(self) -> bool {
        &&& 1 <= self.period_ns
        &&& self.elapsed_ns < self.period_ns
    }

    /// Whether advancing by `delta_ns` crosses a period boundary.
    pub open spec fn due_after(self, delta_ns: u64) -> bool {
        !self.paused && self.elapsed_ns + delta_ns >= self.period_ns
    }

    /// The clock after advancing by `delta_ns`: a paused clock stands still;
    /// otherwise time accumulates, and past a boundary the overshoot carries
    /// into the next period.
    pub open spec fn ticked(self, delta_ns: u64) -> StepClock {
        if self.paused {
            self
        } else {
            StepClock {
                elapsed_ns: (((self.elapsed_ns + delta_ns) as int) % (self.period_ns as int)) as u64,
                ..self
            }
        }
    }

    /// A fresh, running clock with the given period.
    pub fn new(period_ns: u64) -> (c: StepClock)
        requires
            1 <= period_ns,
        ensures
            c.wf(),
            c.period_ns == period_ns,
            c.elapsed_ns == 0,
            !c.paused,
    {
        StepClock { period_ns, elapsed_ns: 0, paused: false }
    }

    /// Advance the clock by `delta_ns`. Returns whether a tick is due, i.e.
    /// whether the accumulated time reached the period; the overshoot past
    /// the boundary carries into the next period.
    pub fn tick(&mut self, delta_ns: u64) -> (due: bool)
        requires
            old(self).wf(),
        ensures
            final(self).wf(),
            due == old(self).due_after(delta_ns),
            *final(self) == old(self).ticked(delta_ns),
    {
        if self.paused {
            return false;
        }
        let remaining = self.period_ns - self.elapsed_ns;
        if delta_ns >= remaining {
            let overshoot = delta_ns - remaining;
            proof {
                lemma_mod_sub_multiples_vanish(
                    old(self).elapsed_ns + delta_ns,
                    old(self).period_ns as int,
                );
            }
            self.elapsed_ns = overshoot % self.period_ns;
            true
        } else {
            proof {
                lemma_small_mod(
                    (old(self).elapsed_ns + delta_ns) as nat,
                    old(self).period_ns as nat,
                );
            }
            self.elapsed_ns = self.elapsed_ns + delta_ns;
            false
        }
    }

    /// Stop the clock; a paused clock reports no ticks and does not advance.
    pub fn pause(&mut self)
        ensures
            *final(self) == (StepClock { paused: true, ..*old(self) }),
    {
        self.paused = true;
    }
}

} // verus!
