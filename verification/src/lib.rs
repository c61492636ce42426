//! A stereo freeze-and-loop audio engine in fixed-point arithmetic.
//!
//! The engine captures recent history of the incoming signal in circular
//! buffers, and on a trigger event re-seeks playback into that history,
//! crossfading the looped material against the live signal with an
//! equal-power curve. All scalar quantities are integers: sample values are
//! 32-bit PCM, blend positions and gains are expressed in millionths of
//! unity (`UNIT`), and durations are expressed in microseconds, so that
//! every computation has an exact mathematical statement.

use vstd::prelude::*;

pub mod fade;
pub mod num;
pub mod ringbuffer;
pub mod smooth;
pub mod switch;

use crate::fade::{clamp_unit, dry_gain, wet_gain, equal_power_fade};
use crate::num::{clamp_i32, div_trunc, div_i64};
use crate::ringbuffer::{Ringbuffer, RingView};
use crate::smooth::{SmoothValue, SmoothView, lemma_step_stays_between};
use crate::switch::{TimedSwitch, SwitchView};

verus! {

/// One unit of blend position or gain, in millionths.
pub const UNIT: i64 = 1_000_000;

/// Microseconds per second: durations are carried in microseconds.
pub const MICROS_PER_SEC: u64 = 1_000_000;

/// The largest block a single `process` call accepts; the per-sample
/// control scratch is preallocated to this size.
pub const MAX_BLOCK_SIZE: usize = 8192;

/// The largest supported sample rate, in Hz; it bounds the buffer
/// allocation and keeps every sample-count computation in range.
pub const MAX_SAMPLE_RATE: u64 = 10_000_000;

/// A dry/wet request within this distance of the smoothed value (one ten
/// thousandth of unity) does not restart the ramp.
pub const DRYWET_EPSILON: i64 = 100;

/// The ramp length used for dry/wet smoothing, about two milliseconds.
pub const RAMP_TIME_MICROS: u64 = 2_000;

/// A trigger event within a block: at sample `offset`, either start a
/// freeze looping the last `length` microseconds of history (and open the
/// pass-through switch for as long), or, with no length, release back to
/// live pass-through.
#[derive(Debug, Clone, Copy)]
pub struct Trig {
    pub offset: usize,
    pub length: Option<u64>,
}

/// Only the first trigger of a block is honored.
pub open spec fn first_trig(trigs: Seq<Trig>) -> Option<Trig> {
    if trigs.len() == 0 {
        None
    } else {
        Some(trigs[0])
    }
}

/// A duration in microseconds converted to whole samples, rounding down.
pub open spec fn gate_length(length_micros: int, sample_rate: int) -> int {
    length_micros * sample_rate / (MICROS_PER_SEC as int)
}

/// The machine-size bound needed to turn the first trigger's length into
/// samples.
pub open spec fn trig_gate_fits(trig: Option<Trig>, sample_rate: int) -> bool {
    match trig {
        Some(t) => match t.length {
            Some(l) => l * sample_rate <= u64::MAX,
            None => true,
        },
        None => true,
    }
}

/// The state threaded through the control pass: the switch, the smoother,
/// and the per-sample switch flags and blend positions derived so far.
#[verifier::ext_equal]
pub ghost struct ControlState {
    pub switch: SwitchView,
    pub smooth: SmoothView,
    pub gates: Seq<bool>,
    pub mixes: Seq<i64>,
}

/// One sample of the control pass: a matching freeze trigger re-arms the
/// switch, the switch ticks, a dry/wet request further than `DRYWET_EPSILON`
/// from the smoothed value retargets the ramp (clamped into `[0, UNIT]`),
/// and the ramp advances.
pub open spec fn control_step(c: ControlState, trig: Option<Trig>, drywet: i64, i: int) -> ControlState {
    let sw1 = match trig {
        Some(t) => match t.length {
            Some(l) => if t.offset == i {
                c.switch.after_reset(l as int)
            } else {
                c.switch
            },
            None => c.switch,
        },
        None => c.switch,
    };
    let open = sw1.tick_open();
    let sw2 = sw1.after_tick();
    let sm1 = if drywet > c.smooth.current + DRYWET_EPSILON
        || drywet < c.smooth.current - DRYWET_EPSILON {
        c.smooth.after_retarget(clamp_unit(drywet as int))
    } else {
        c.smooth
    };
    let sm2 = sm1.step();
    ControlState {
        switch: sw2,
        smooth: sm2,
        gates: c.gates.push(open),
        mixes: c.mixes.push(sm2.current as i64),
    }
}

/// The control pass over the first `n` samples of a block.
pub open spec fn controls_after(
    sw: SwitchView,
    sm: SmoothView,
    trig: Option<Trig>,
    drywet: i64,
    n: nat,
) -> ControlState
    decreases n,
{
    if n == 0 {
        ControlState { switch: sw, smooth: sm, gates: Seq::empty(), mixes: Seq::empty() }
    } else {
        control_step(controls_after(sw, sm, trig, drywet, (n - 1) as nat), trig, drywet, n - 1)
    }
}

/// The state threaded through one channel of the signal pass: the buffer
/// the channel reads, the opposite channel's buffer it writes, the bypass
/// and switch-status flags, and the output produced so far.
#[verifier::ext_equal]
pub ghost struct ChannelState {
    pub read_buf: RingView,
    pub write_buf: RingView,
    pub bypass: bool,
    pub switch_status: bool,
    pub out: Seq<i32>,
}

/// The crossfaded output sample: the dry and wet gains applied to the live
/// and effect signals, scaled back down and saturated to the sample range.
pub open spec fn mix_output(mix: i64, live: i32, fx: i32) -> i32 {
    clamp_i32(div_trunc(dry_gain(mix as int) * live + wet_gain(mix as int) * fx, 1_000_000))
}

/// One sample of the signal pass for one channel: a matching freeze
/// trigger re-seeks the read cursor into history and clears bypass (a
/// release sets it); one delayed sample is read; the live input is used
/// while bypassed or while the switch window is open, the delayed sample once the
/// freeze has settled; the effect signal feeds the opposite channel's
/// buffer; and the output is the equal-power blend of live and effect.
pub open spec fn channel_step(
    s: ChannelState,
    trig: Option<Trig>,
    sample_rate: int,
    gate: bool,
    mix: i64,
    live: i32,
    i: int,
) -> ChannelState {
    let armed = match trig {
        Some(t) => match t.length {
            Some(l) => if t.offset == i {
                ChannelState {
                    read_buf: s.read_buf.after_seek(gate_length(l as int, sample_rate)),
                    bypass: false,
                    ..s
                }
            } else {
                s
            },
            None => if t.offset == i {
                ChannelState { bypass: true, ..s }
            } else {
                s
            },
        },
        None => s,
    };
    let delayed = armed.read_buf.read_sample();
    let on = armed.bypass || gate;
    let fx = if on {
        live
    } else {
        delayed
    };
    ChannelState {
        read_buf: armed.read_buf.after_read(),
        write_buf: armed.write_buf.after_write(fx),
        bypass: armed.bypass,
        switch_status: on,
        out: s.out.push(mix_output(mix, live, fx)),
    }
}

/// The signal pass of one channel over the first `n` samples of a block.
pub open spec fn channel_after(
    s: ChannelState,
    trig: Option<Trig>,
    sample_rate: int,
    input: Seq<i32>,
    gates: Seq<bool>,
    mixes: Seq<i64>,
    n: nat,
) -> ChannelState
    decreases n,
{
    if n == 0 {
        s
    } else {
        channel_step(
            channel_after(s, trig, sample_rate, input, gates, mixes, (n - 1) as nat),
            trig,
            sample_rate,
            gates[n - 1],
            mixes[n - 1],
            input[n - 1],
            n - 1,
        )
    }
}

/// The signal pass only looks at the first `n` entries of the switch-flag and
/// blend sequences, so any sequences agreeing there give the same pass.
pub proof fn lemma_channel_pass_agrees(
    s: ChannelState,
    trig: Option<Trig>,
    sample_rate: int,
    input: Seq<i32>,
    g1: Seq<bool>,
    m1: Seq<i64>,
    g2: Seq<bool>,
    m2: Seq<i64>,
    n: nat,
)
    requires
        forall|k: int| 0 <= k < n ==> g1[k] == g2[k],
        forall|k: int| 0 <= k < n ==> m1[k] == m2[k],
    ensures
        channel_after(s, trig, sample_rate, input, g1, m1, n)
            == channel_after(s, trig, sample_rate, input, g2, m2, n),
    decreases n,
{
    if n > 0 {
        lemma_channel_pass_agrees(s, trig, sample_rate, input, g1, m1, g2, m2, (n - 1) as nat);
    }
}

/// Mathematical view of the whole processor.
#[verifier::ext_equal]
pub ghost struct ProcView {
    pub buffer0: RingView,
    pub buffer1: RingView,
    pub switch: SwitchView,
    pub smooth: SmoothView,
    pub sample_rate: int,
    pub bypass: bool,
    pub switch_status: bool,
}

/// The stereo freeze/crossfade processor: one history buffer per channel,
/// one pass-through switch, one dry/wet ramp, and the bypass state.
pub struct Processor {
    buffer0: Ringbuffer,
    buffer1: Ringbuffer,
    switch: TimedSwitch,
    sample_rate: u64,
    bypass: bool,
    switch_status: bool,
    smooth_drywet: SmoothValue,
    switch_block: Vec<bool>,
    mix_block: Vec<i64>,
}

impl View for Processor {
    type V = ProcView;

    closed spec fn view(&self) -> ProcView {
        ProcView {
            buffer0: self.buffer0@,
            buffer1: self.buffer1@,
            switch: self.switch@,
            smooth: self.smooth_drywet@,
            sample_rate: self.sample_rate as int,
            bypass: self.bypass,
            switch_status: self.switch_status,
        }
    }
}

impl Processor {
    /// The processor's internal consistency: both buffers hold two seconds
    /// of history, the switch counts at the processor's rate, the smoothed
    /// blend stays within `[0, UNIT]`, and the control scratch is sized to
    /// the largest block.
    pub closed spec fn wf(&self) -> bool {
        &&& self.buffer0@.wf()
        &&& self.buffer1@.wf()
        &&& self.buffer0@.capacity() == 2 * self@.sample_rate
        &&& self.buffer1@.capacity() == 2 * self@.sample_rate
        &&& self.switch@.sample_rate == self@.sample_rate
        &&& 1 <= self@.sample_rate <= MAX_SAMPLE_RATE
        &&& 0 <= self@.smooth.current <= UNIT
        &&& 0 <= self@.smooth.target <= UNIT
        &&& self.switch_block@.len() == MAX_BLOCK_SIZE
        &&& self.mix_block@.len() == MAX_BLOCK_SIZE
    }

    /// A fresh processor: two seconds of zeroed history per channel, a
    /// closed switch, a fully dry blend, and a two-millisecond dry/wet ramp.
    pub fn new(sample_rate: u64) -> (r: Processor)
        requires
            1 <= sample_rate <= MAX_SAMPLE_RATE,
        ensures
            r.wf(),
            r@.buffer0.data == Seq::new((2 * sample_rate) as nat, |i: int| 0i32),
            r@.buffer1.data == Seq::new((2 * sample_rate) as nat, |i: int| 0i32),
            r@.buffer0.read_position == 0,
            r@.buffer0.write_position == 0,
            r@.buffer1.read_position == 0,
            r@.buffer1.write_position == 0,
            r@.switch == (SwitchView { samples: 0, sample_rate: sample_rate as int }),
            r@.smooth == (SmoothView {
                current: 0,
                target: 0,
                samples_to_target: 0,
                steps: sample_rate * RAMP_TIME_MICROS / (MICROS_PER_SEC as int),
            }),
            r@.sample_rate == sample_rate,
            r@.bypass == true,
            r@.switch_status == false,
    {
        let capacity: usize = (2 * sample_rate) as usize;
        let mut smooth_drywet = SmoothValue::new(0);
        smooth_drywet.set_distance(sample_rate, RAMP_TIME_MICROS);
        let switch_block: Vec<bool> = vec![false; MAX_BLOCK_SIZE];
        let mix_block: Vec<i64> = vec![0i64; MAX_BLOCK_SIZE];
        Processor {
            buffer0: Ringbuffer::new(capacity),
            buffer1: Ringbuffer::new(capacity),
            switch: TimedSwitch::new(sample_rate),
            sample_rate,
            bypass: true,
            switch_status: false,
            smooth_drywet,
            switch_block,
            mix_block,
        }
    }

    /// Processes one stereo block: derives the per-sample switch flags and
    /// blend positions once, then runs the signal pass over channel 0
    /// (reading its own history, feeding channel 1's) and then channel 1
    /// (reading its own history, feeding channel 0's), overwriting both
    /// output channels.
    pub fn process(
        &mut self,
        input0: &Vec<i32>,
        input1: &Vec<i32>,
        output0: &mut Vec<i32>,
        output1: &mut Vec<i32>,
        trigs: &Vec<Trig>,
        drywet: i64,
    )
        requires
            old(self).wf(),
            input0@.len() <= MAX_BLOCK_SIZE,
            input1@.len() == input0@.len(),
            old(output0)@.len() == input0@.len(),
            old(output1)@.len() == input0@.len(),
            trig_gate_fits(first_trig(trigs@), old(self)@.sample_rate),
        ensures
            final(self).wf(),
            final(self)@.sample_rate == old(self)@.sample_rate,
            final(output0)@.len() == input0@.len(),
            final(output1)@.len() == input1@.len(),
            ({
                let c = controls_after(
                    old(self)@.switch,
                    old(self)@.smooth,
                    first_trig(trigs@),
                    drywet,
                    input0@.len(),
                );
                let ch0 = channel_after(
                    (ChannelState {
                        read_buf: old(self)@.buffer0,
                        write_buf: old(self)@.buffer1,
                        bypass: old(self)@.bypass,
                        switch_status: old(self)@.switch_status,
                        out: Seq::empty(),
                    }),
                    first_trig(trigs@),
                    old(self)@.sample_rate,
                    input0@,
                    c.gates,
                    c.mixes,
                    input0@.len(),
                );
                let ch1 = channel_after(
                    (ChannelState {
                        read_buf: ch0.write_buf,
                        write_buf: ch0.read_buf,
                        bypass: ch0.bypass,
                        switch_status: ch0.switch_status,
                        out: Seq::empty(),
                    }),
                    first_trig(trigs@),
                    old(self)@.sample_rate,
                    input1@,
                    c.gates,
                    c.mixes,
                    input1@.len(),
                );
                &&& final(self)@.switch == c.switch
                &&& final(self)@.smooth == c.smooth
                &&& final(self)@.buffer0 == ch1.write_buf
                &&& final(self)@.buffer1 == ch1.read_buf
                &&& final(self)@.bypass == ch1.bypass
                &&& final(self)@.switch_status == ch1.switch_status
                &&& final(output0)@ == ch0.out
                &&& final(output1)@ == ch1.out
            }),
    {
        let n: usize = input0.len();
        let trig_opt: Option<Trig> = if trigs.len() > 0 {
            Some(trigs[0])
        } else {
            None
        };
        let ghost sw0 = self.switch@;
        let ghost sm0 = self.smooth_drywet@;
        let ghost b0_init = self.buffer0@;
        let ghost b1_init = self.buffer1@;
        let ghost byp_init = self.bypass;
        let ghost st_init = self.switch_status;
        let ghost rate = self.sample_rate as int;

        let mut i: usize = 0;
        while i < n
            invariant
                i <= n,
                n <= MAX_BLOCK_SIZE,
                n == input0@.len(),
                self.switch_block@.len() == MAX_BLOCK_SIZE,
                self.mix_block@.len() == MAX_BLOCK_SIZE,
                self.buffer0@ == b0_init,
                self.buffer1@ == b1_init,
                self.bypass == byp_init,
                self.switch_status == st_init,
                self.sample_rate as int == rate,
                self.buffer0@.wf(),
                self.buffer1@.wf(),
                self.buffer0@.capacity() == 2 * rate,
                self.buffer1@.capacity() == 2 * rate,
                1 <= rate <= MAX_SAMPLE_RATE,
                self.switch@.sample_rate == rate,
                0 <= self.smooth_drywet@.current <= UNIT,
                0 <= self.smooth_drywet@.target <= UNIT,
                trig_opt == first_trig(trigs@),
                trig_gate_fits(trig_opt, rate),
                ({
                    let c = controls_after(sw0, sm0, trig_opt, drywet, i as nat);
                    &&& self.switch@ == c.switch
                    &&& self.smooth_drywet@ == c.smooth
                    &&& c.gates.len() == i
                    &&& c.mixes.len() == i
                    &&& forall|k: int| 0 <= k < i ==> self.switch_block@[k] == c.gates[k]
                    &&& forall|k: int| 0 <= k < i ==> self.mix_block@[k] == c.mixes[k]
                }),
            decreases n - i,
        {
            proof {
                let c_prev = controls_after(sw0, sm0, trig_opt, drywet, i as nat);
                assert(controls_after(sw0, sm0, trig_opt, drywet, (i + 1) as nat)
                    == control_step(c_prev, trig_opt, drywet, i as int));
            }
            match trig_opt {
                Some(t) => {
                    if t.offset == i {
                        match t.length {
                            Some(l) => {
                                self.switch.reset(l);
                            },
                            None => {},
                        }
                    }
                },
                None => {},
            }
            let g: bool = self.switch.tick();
            self.switch_block[i] = g;
            let cur: i64 = self.smooth_drywet.current();
            if drywet > cur + DRYWET_EPSILON || drywet < cur - DRYWET_EPSILON {
                let t: i64 = if drywet < 0 {
                    0
                } else if drywet > UNIT {
                    UNIT
                } else {
                    drywet
                };
                self.smooth_drywet.set_target(t);
            }
            proof {
                lemma_step_stays_between(self.smooth_drywet@, 0, UNIT as int);
            }
            let m: i64 = self.smooth_drywet.next();
            self.mix_block[i] = m;
            i = i + 1;
        }

        let ghost c = controls_after(sw0, sm0, trig_opt, drywet, n as nat);

        process_channel(
            &mut self.buffer0,
            &mut self.buffer1,
            &mut self.bypass,
            &mut self.switch_status,
            trig_opt,
            self.sample_rate,
            input0,
            output0,
            &self.switch_block,
            &self.mix_block,
        );
        proof {
            lemma_channel_pass_agrees(
                (ChannelState {
                    read_buf: b0_init,
                    write_buf: b1_init,
                    bypass: byp_init,
                    switch_status: st_init,
                    out: Seq::empty(),
                }),
                trig_opt,
                rate,
                input0@,
                self.switch_block@,
                self.mix_block@,
                c.gates,
                c.mixes,
                n as nat,
            );
        }
        process_channel(
            &mut self.buffer1,
            &mut self.buffer0,
            &mut self.bypass,
            &mut self.switch_status,
            trig_opt,
            self.sample_rate,
            input1,
            output1,
            &self.switch_block,
            &self.mix_block,
        );
        proof {
            let ch0 = channel_after(
                (ChannelState {
                    read_buf: b0_init,
                    write_buf: b1_init,
                    bypass: byp_init,
                    switch_status: st_init,
                    out: Seq::empty(),
                }),
                trig_opt,
                rate,
                input0@,
                c.gates,
                c.mixes,
                n as nat,
            );
            lemma_channel_pass_agrees(
                (ChannelState {
                    read_buf: ch0.write_buf,
                    write_buf: ch0.read_buf,
                    bypass: ch0.bypass,
                    switch_status: ch0.switch_status,
                    out: Seq::empty(),
                }),
                trig_opt,
                rate,
                input1@,
                self.switch_block@,
                self.mix_block@,
                c.gates,
                c.mixes,
                n as nat,
            );
        }
    }
}

/// One channel of the signal pass, as `channel_after` describes: reads
/// this channel's history, writes the effect signal into the opposite
/// channel's buffer, and overwrites this channel's output.
fn process_channel(
    read_buf: &mut Ringbuffer,
    write_buf: &mut Ringbuffer,
    bypass: &mut bool,
    switch_status: &mut bool,
    trig_opt: Option<Trig>,
    sample_rate: u64,
    input: &Vec<i32>,
    output: &mut Vec<i32>,
    gates: &Vec<bool>,
    mixes: &Vec<i64>,
)
    requires
        old(read_buf).wf(),
        old(write_buf).wf(),
        input@.len() <= gates@.len(),
        input@.len() <= mixes@.len(),
        old(output)@.len() == input@.len(),
        trig_gate_fits(trig_opt, sample_rate as int),
    ensures
        final(read_buf).wf(),
        final(write_buf).wf(),
        final(read_buf)@.capacity() == old(read_buf)@.capacity(),
        final(write_buf)@.capacity() == old(write_buf)@.capacity(),
        final(output)@.len() == input@.len(),
        ({
            let s = channel_after(
                (ChannelState {
                    read_buf: old(read_buf)@,
                    write_buf: old(write_buf)@,
                    bypass: *old(bypass),
                    switch_status: *old(switch_status),
                    out: Seq::empty(),
                }),
                trig_opt,
                sample_rate as int,
                input@,
                gates@,
                mixes@,
                input@.len(),
            );
            &&& final(read_buf)@ == s.read_buf
            &&& final(write_buf)@ == s.write_buf
            &&& *final(bypass) == s.bypass
            &&& *final(switch_status) == s.switch_status
            &&& final(output)@ == s.out
        }),
{
    let n: usize = input.len();
    let ghost start = ChannelState {
        read_buf: old(read_buf)@,
        write_buf: old(write_buf)@,
        bypass: *old(bypass),
        switch_status: *old(switch_status),
        out: Seq::empty(),
    };
    let mut i: usize = 0;
    while i < n
        invariant
            i <= n,
            n == input@.len(),
            n <= gates@.len(),
            n <= mixes@.len(),
            output@.len() == n,
            read_buf.wf(),
            write_buf.wf(),
            read_buf@.capacity() == old(read_buf)@.capacity(),
            write_buf@.capacity() == old(write_buf)@.capacity(),
            trig_gate_fits(trig_opt, sample_rate as int),
            ({
                let s = channel_after(
                    start,
                    trig_opt,
                    sample_rate as int,
                    input@,
                    gates@,
                    mixes@,
                    i as nat,
                );
                &&& read_buf@ == s.read_buf
                &&& write_buf@ == s.write_buf
                &&& *bypass == s.bypass
                &&& *switch_status == s.switch_status
                &&& s.out.len() == i
                &&& forall|k: int| 0 <= k < i ==> output@[k] == s.out[k]
            }),
        decreases n - i,
    {
        proof {
            let s_prev = channel_after(
                start,
                trig_opt,
                sample_rate as int,
                input@,
                gates@,
                mixes@,
                i as nat,
            );
            assert(channel_after(
                start,
                trig_opt,
                sample_rate as int,
                input@,
                gates@,
                mixes@,
                (i + 1) as nat,
            ) == channel_step(
                s_prev,
                trig_opt,
                sample_rate as int,
                gates@[i as int],
                mixes@[i as int],
                input@[i as int],
                i as int,
            ));
        }
        match trig_opt {
            Some(t) => {
                match t.length {
                    Some(l) => {
                        if t.offset == i {
                            let off64: u64 = l * sample_rate / MICROS_PER_SEC;
                            let cap: usize = read_buf.capacity();
                            if off64 <= cap as u64 {
                                read_buf.set_read_offset(off64 as usize);
                            }
                            *bypass = false;
                        }
                    },
                    None => {
                        if t.offset == i {
                            *bypass = true;
                        }
                    },
                }
            },
            None => {},
        }
        let delayed: i32 = read_buf.read();
        let on: bool = *bypass || gates[i];
        if *switch_status != on {
            *switch_status = on;
        }
        let live: i32 = input[i];
        let fx: i32 = if on {
            live
        } else {
            delayed
        };
        write_buf.write(fx);
        let mix: i64 = mixes[i];
        let (dry, wet): (i64, i64) = equal_power_fade(mix);
        proof {
            assert(-2_147_483_648_000_000 <= dry * (live as i64)
                && dry * (live as i64) <= 2_147_483_647_000_000) by (nonlinear_arith)
                requires
                    0 <= dry <= 1_000_000,
                    -2_147_483_648 <= live as i64 <= 2_147_483_647,
            ;
            assert(-2_147_483_648_000_000 <= wet * (fx as i64)
                && wet * (fx as i64) <= 2_147_483_647_000_000) by (nonlinear_arith)
                requires
                    0 <= wet <= 1_000_000,
                    -2_147_483_648 <= fx as i64 <= 2_147_483_647,
            ;
        }
        let acc: i64 = dry * (live as i64) + wet * (fx as i64);
        let out64: i64 = div_i64(acc, 1_000_000);
        let sample: i32 = if out64 > i32::MAX as i64 {
            i32::MAX
        } else if out64 < i32::MIN as i64 {
            i32::MIN
        } else {
            out64 as i32
        };
        output[i] = sample;
        i = i + 1;
    }
    proof {
        let s = channel_after(
            start,
            trig_opt,
            sample_rate as int,
            input@,
            gates@,
            mixes@,
            n as nat,
        );
        assert(output@ =~= s.out);
    }
}

/// Holding the dry/wet request within `DRYWET_EPSILON` of a settled
/// smoothed value never restarts the ramp: the control pass leaves the
/// smoother untouched, however many samples it runs.
pub proof fn lemma_drywet_debounce(
    sw: SwitchView,
    sm: SmoothView,
    trig: Option<Trig>,
    drywet: i64,
    n: nat,
)
    requires
        sm.samples_to_target == 0,
        sm.current - DRYWET_EPSILON <= drywet <= sm.current + DRYWET_EPSILON,
    ensures
        controls_after(sw, sm, trig, drywet, n).smooth == sm,
    decreases n,
{
    if n > 0 {
        lemma_drywet_debounce(sw, sm, trig, drywet, (n - 1) as nat);
    }
}

} // verus!
