//! Linear parameter ramp. The increment is recomputed from the remaining
//! distance and remaining steps on every call, so the trajectory lands on
//! the target exactly after the configured number of steps, whatever
//! rounding the intermediate divisions did.

use vstd::prelude::*;
use crate::MICROS_PER_SEC;
use crate::num::{div_trunc, div_i64, lemma_div_trunc_bounds};

verus! {

/// Mathematical view of the ramp: the smoothed value, its target, how many
/// steps of the current ramp remain, and the configured ramp length.
#[verifier::ext_equal]
pub ghost struct SmoothView {
    pub current: int,
    pub target: int,
    pub samples_to_target: int,
    pub steps: int,
}

impl SmoothView {
    /// The ramp after a new target is set: the full ramp restarts.
    pub open spec fn after_retarget(self, target: int) -> SmoothView {
        SmoothView { target, samples_to_target: self.steps, ..self }
    }

    /// One step of the ramp: while steps remain, the value moves by the
    /// remaining distance divided by the remaining steps (rounded toward
    /// zero); once none remain the value stays put.
    pub open spec fn step(self) -> SmoothView {
        if self.samples_to_target > 0 {
            SmoothView {
                current: self.current + div_trunc(self.target - self.current, self.samples_to_target),
                samples_to_target: self.samples_to_target - 1,
                ..self
            }
        } else {
            self
        }
    }

    /// The ramp after `n` steps.
    pub open spec fn after_steps(self, n: nat) -> SmoothView
        decreases n,
    {
        if n == 0 {
            self
        } else {
            self.step().after_steps((n - 1) as nat)
        }
    }
}

/// A scalar value that approaches its target along an exact N-step linear
/// interpolation.
pub struct SmoothValue {
    current: i64,
    target: i64,
    samples_to_target: usize,
    steps: usize,
}

impl View for SmoothValue {
    type V = SmoothView;

    closed spec fn view(&self) -> SmoothView {
        SmoothView {
            current: self.current as int,
            target: self.target as int,
            samples_to_target: self.samples_to_target as int,
            steps: self.steps as int,
        }
    }
}

impl SmoothValue {
    /// A converged ramp resting at `initial` with no ramp length set.
    pub fn new(initial: i64) -> (r: SmoothValue)
        ensures
            r@ == (SmoothView {
                current: initial as int,
                target: initial as int,
                samples_to_target: 0,
                steps: 0,
            }),
    {
        SmoothValue { current: initial, target: initial, samples_to_target: 0, steps: 0 }
    }

    /// The most recently smoothed value.
    pub fn current(&self) -> (r: i64)
        ensures
            r == self@.current,
    {
        self.current
    }

    /// Sets a new target and restarts the ramp over the configured length.
    pub fn set_target(&mut self, target: i64)
        ensures
            final(self)@ == old(self)@.after_retarget(target as int),
    {
        self.target = target;
        self.samples_to_target = self.steps;
    }

    /// Configures the ramp length to `floor(sample_rate * time_micros /
    /// 1_000_000)` steps.
    pub fn set_distance(&mut self, sample_rate: u64, time_micros: u64)
        requires
            sample_rate * time_micros <= u64::MAX,
            sample_rate * time_micros / (MICROS_PER_SEC as int) <= usize::MAX,
        ensures
            final(self)@.steps == sample_rate * time_micros / (MICROS_PER_SEC as int),
            final(self)@.current == old(self)@.current,
            final(self)@.target == old(self)@.target,
            final(self)@.samples_to_target == old(self)@.samples_to_target,
    {
        let s: u64 = sample_rate * time_micros / MICROS_PER_SEC;
        self.steps = s as usize;
    }

    /// Advances the ramp one step and returns the updated value.
    pub fn next(&mut self) -> (r: i64)
        requires
            -(i64::MAX as int) <= old(self)@.target - old(self)@.current <= i64::MAX as int,
        ensures
            final(self)@ == old(self)@.step(),
            r == final(self)@.current,
            old(self)@.samples_to_target == 0 ==> r == old(self)@.current,
            old(self)@.samples_to_target == 1 ==> r == old(self)@.target,
    {
        if self.samples_to_target > 0 {
            let distance: i64 = self.target - self.current;
            proof {
                lemma_div_trunc_bounds(distance as int, self.samples_to_target as int);
            }
            let increment: i64 = div_i64(distance, self.samples_to_target as u64);
            self.current = self.current + increment;
            self.samples_to_target = self.samples_to_target - 1;
            proof {
                assert(self@ =~= old(self)@.step());
            }
        }
        self.current
    }
}

/// A ramp with no steps remaining never moves again.
pub proof fn lemma_settled(v: SmoothView, n: nat)
    requires
        v.samples_to_target == 0,
    ensures
        v.after_steps(n) == v,
    decreases n,
{
    if n > 0 {
        lemma_settled(v, (n - 1) as nat);
    }
}

/// The ramp is an exact linear interpolation: from any value, a ramp with
/// `samples_to_target` steps remaining rests at precisely its target after
/// that many steps, and stays there for all further steps.
pub proof fn lemma_ramp_reaches_target(v: SmoothView, n: nat)
    requires
        v.samples_to_target >= 1,
        n >= v.samples_to_target,
    ensures
        v.after_steps(n).current == v.target,
        v.after_steps(n).samples_to_target == 0,
        v.after_steps(n).target == v.target,
    decreases n,
{
    lemma_div_trunc_bounds(v.target - v.current, v.samples_to_target);
    if v.samples_to_target == 1 {
        lemma_settled(v.step(), (n - 1) as nat);
    } else {
        lemma_ramp_reaches_target(v.step(), (n - 1) as nat);
    }
}

/// One ramp step keeps the value inside any interval that contains both
/// the value and the target.
pub proof fn lemma_step_stays_between(v: SmoothView, lo: int, hi: int)
    requires
        lo <= v.current <= hi,
        lo <= v.target <= hi,
    ensures
        lo <= v.step().current <= hi,
        lo <= v.step().target <= hi,
{
    if v.samples_to_target > 0 {
        lemma_div_trunc_bounds(v.target - v.current, v.samples_to_target);
    }
}

} // verus!
