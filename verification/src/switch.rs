//! A countdown-based boolean switch: once reset to a duration it reports an
//! open state for exactly that many ticks, then closes until the next
//! reset. It gives a brief live pass-through window right after a freeze
//! is triggered, so the transition into loop playback has a smooth attack.

use vstd::prelude::*;
use crate::MICROS_PER_SEC;

verus! {

/// Mathematical view of the switch: the remaining open ticks and the sample
/// rate the countdown is derived from.
#[verifier::ext_equal]
pub ghost struct SwitchView {
    pub samples: int,
    pub sample_rate: int,
}

impl SwitchView {
    /// Whether the next tick reports the switch open.
    pub open spec fn tick_open(self) -> bool {
        self.samples > 0
    }

    /// The switch after one tick: the countdown decrements while positive.
    pub open spec fn after_tick(self) -> SwitchView {
        if self.samples > 0 {
            SwitchView { samples: self.samples - 1, ..self }
        } else {
            self
        }
    }

    /// The switch after a reset to `micros` microseconds: open for
    /// `floor(micros * sample_rate / 1_000_000)` ticks.
    pub open spec fn after_reset(self, micros: int) -> SwitchView {
        SwitchView { samples: micros * self.sample_rate / (MICROS_PER_SEC as int), ..self }
    }

    /// The switch after `n` ticks.
    pub open spec fn after_ticks(self, n: nat) -> SwitchView
        decreases n,
    {
        if n == 0 {
            self
        } else {
            self.after_tick().after_ticks((n - 1) as nat)
        }
    }
}

/// A timed boolean switch counting down whole samples at a fixed rate.
pub struct TimedSwitch {
    samples: u64,
    sample_rate: u64,
}

impl View for TimedSwitch {
    type V = SwitchView;

    closed spec fn view(&self) -> SwitchView {
        SwitchView { samples: self.samples as int, sample_rate: self.sample_rate as int }
    }
}

impl TimedSwitch {
    /// A closed switch counting at `sample_rate` ticks per second.
    pub fn new(sample_rate: u64) -> (r: TimedSwitch)
        ensures
            r@ == (SwitchView { samples: 0, sample_rate: sample_rate as int }),
    {
        TimedSwitch { samples: 0, sample_rate }
    }

    /// Reports whether the switch was open, decrementing the countdown if it
    /// was; a closed switch is left unchanged.
    pub fn tick(&mut self) -> (open: bool)
        ensures
            open == old(self)@.tick_open(),
            final(self)@ == old(self)@.after_tick(),
    {
        if self.samples > 0 {
            self.samples = self.samples - 1;
            true
        } else {
            false
        }
    }

    /// Opens the switch for `floor(time_micros * sample_rate / 1_000_000)`
    /// subsequent ticks.
    pub fn reset(&mut self, time_micros: u64)
        requires
            time_micros * old(self)@.sample_rate <= u64::MAX,
        ensures
            final(self)@ == old(self)@.after_reset(time_micros as int),
    {
        self.samples = time_micros * self.sample_rate / MICROS_PER_SEC;
    }
}

/// The switch opens for exactly its countdown: starting from a view `v`, the
/// tick numbered `n` (counting from zero) reports open if and only if
/// `n < v.samples`.
pub proof fn lemma_gate_open_exactly(v: SwitchView, n: nat)
    ensures
        v.after_ticks(n).tick_open() <==> n < v.samples,
    decreases n,
{
    if n > 0 {
        lemma_gate_open_exactly(v.after_tick(), (n - 1) as nat);
    }
}

} // verus!
