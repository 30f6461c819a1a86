use vstd::prelude::*;

verus! {

/// A repeating countdown: it fires each time `period` microseconds have
/// elapsed, and starts over with what was left beyond the period.
pub struct SpawnTimer {
    pub period: u64,
    pub elapsed: u64,
}

impl SpawnTimer {
    /// A timer is well formed when its period is positive and less than one
    /// period has elapsed since it last fired.
    pub open spec fn wf(&self) -> bool {
        self.period > 0 && self.elapsed < self.period
    }

    /// How many times the timer fires when `delta` microseconds pass.
    pub open spec fn fires_on(&self, delta: nat) -> nat {
        ((self.elapsed + delta) / (self.period as int)) as nat
    }

    /// What has elapsed since the last firing once `delta` microseconds pass.
    pub open spec fn elapsed_after(&self, delta: nat) -> nat {
        ((self.elapsed + delta) % (self.period as int)) as nat
    }

    /// A fresh timer with the given period in microseconds.
    pub fn new(period: u64) -> (r: SpawnTimer)
        requires
            period > 0,
        ensures
            r.period == period,
            r.elapsed == 0,
            r.wf(),
    {
        SpawnTimer { period, elapsed: 0 }
    }

    /// Advances the timer by `delta` microseconds and returns how many times it
    /// fired meanwhile.
    pub fn tick(&mut self, delta: u64) -> (fired: u64)
        requires
            old(self).wf(),
        ensures
            final(self).wf(),
            final(self).period == old(self).period,
            final(self).elapsed == old(self).elapsed_after(delta as nat),
            fired == old(self).fires_on(delta as nat),
    {
        let rest = self.period - self.elapsed;
        if delta < rest {
            proof {
                let e = self.elapsed as int;
                let p = self.period as int;
                vstd::arithmetic::div_mod::lemma_basic_div(e + delta, p);
                vstd::arithmetic::div_mod::lemma_small_mod((e + delta) as nat, p as nat);
            }
            self.elapsed = self.elapsed + delta;
            0
        } else {
            let over = delta - rest;
            let fired = 1 + over / self.period;
            proof {
                let p = self.period as int;
                let e = self.elapsed as int;
                assert(e + delta == over + p);
                vstd::arithmetic::div_mod::lemma_div_plus_one(over as int, p);
                vstd::arithmetic::div_mod::lemma_mod_add_multiples_vanish(over as int, p);
                vstd::arithmetic::div_mod::lemma_mod_bound(over as int, p);
            }
            self.elapsed = over % self.period;
            fired
        }
    }

    /// Whether the timer fired at least once during its last tick, given what
    /// that tick returned.
    pub fn just_finished(fired: u64) -> (r: bool)
        ensures
            r == (fired > 0),
    {
        fired > 0
    }
}

} // verus!
