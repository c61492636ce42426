use cgcore::{Processor, Trig, UNIT};

fn zeros(n: usize) -> Vec<i32> {
    vec![0i32; n]
}

fn run_block(
    p: &mut Processor,
    in0: &Vec<i32>,
    in1: &Vec<i32>,
    trigs: &Vec<Trig>,
    drywet: i64,
) -> (Vec<i32>, Vec<i32>) {
    let mut out0 = zeros(in0.len());
    let mut out1 = zeros(in1.len());
    p.process(in0, in1, &mut out0, &mut out1, trigs, drywet);
    (out0, out1)
}

#[test]
fn test_end_to_end() {
    // 100 Hz, block of 10 samples, a unit impulse on channel 0 at sample
    // 0, and a freeze trigger at sample 2 looping the last 0.05 s. At
    // this rate the dry/wet ramp has zero steps, so the blend rests at
    // full dry: every output sample equals the live input. The switch opens
    // for floor(0.05 * 100) = 5 samples (2 through 6).
    let mut p = Processor::new(100);
    let mut in0 = zeros(10);
    in0[0] = 1_000_000;
    let in1 = zeros(10);
    let trigs = vec![Trig { offset: 2, length: Some(50_000) }];
    let (out0, out1) = run_block(&mut p, &in0, &in1, &trigs, 0);
    // Samples 0-1: dry pass-through before the trigger.
    assert_eq!(out0[0], 1_000_000);
    assert_eq!(out0[1], 0);
    // Samples 2-6: the switch window passes live input through.
    let mut i: usize = 2;
    while i <= 6 {
        assert_eq!(out0[i], in0[i]);
        i = i + 1;
    }
    // From sample 7 on: the freeze path plays buffered content, which is
    // the zeroed history (nothing had been captured yet).
    while i < 10 {
        assert_eq!(out0[i], 0);
        i = i + 1;
    }
    let mut k: usize = 0;
    while k < 10 {
        assert_eq!(out1[k], 0);
        k = k + 1;
    }
}

#[test]
fn test_freeze_plays_buffered() {
    // At 1000 Hz the dry/wet ramp has two steps per retarget; one silent
    // block of 64 samples settles the blend at exactly full wet, where the
    // output equals the effect signal sample for sample.
    let mut p = Processor::new(1_000);
    let silent = zeros(64);
    let none: Vec<Trig> = vec![];
    run_block(&mut p, &silent, &silent, &none, UNIT);

    // Freeze looping the last 68 samples; the switch stays open for this
    // whole block (64 of 68 samples) and spills into the next.
    let freeze = vec![Trig { offset: 0, length: Some(68_000) }];
    let (f0, f1) = run_block(&mut p, &silent, &silent, &freeze, UNIT);
    let mut i: usize = 0;
    while i < 64 {
        assert_eq!(f0[i], 0);
        assert_eq!(f1[i], 0);
        i = i + 1;
    }

    // Impulse on channel 0 while the last 4 open samples run out. The
    // windowed pass writes it into channel 1's history, and once the switch
    // closes at sample 4, channel 1 replays that buffered impulse even
    // though its own live input is silence.
    let mut in0 = zeros(64);
    in0[0] = 7_000_000;
    let in1 = zeros(64);
    let (out0, out1) = run_block(&mut p, &in0, &in1, &none, UNIT);
    assert_eq!(out0[0], 7_000_000);
    let mut j: usize = 1;
    while j < 64 {
        assert_eq!(out0[j], 0);
        j = j + 1;
    }
    assert_eq!(out1[4], 7_000_000);
    let mut k: usize = 0;
    while k < 64 {
        if k != 4 {
            assert_eq!(out1[k], 0);
        }
        k = k + 1;
    }
}

#[test]
fn test_only_first_trigger_honored() {
    // The same scenario with a release appended after the freeze trigger:
    // the second event is ignored, so the buffered impulse still plays.
    let mut p = Processor::new(1_000);
    let silent = zeros(64);
    let none: Vec<Trig> = vec![];
    run_block(&mut p, &silent, &silent, &none, UNIT);
    let trigs = vec![
        Trig { offset: 0, length: Some(68_000) },
        Trig { offset: 0, length: None },
    ];
    run_block(&mut p, &silent, &silent, &trigs, UNIT);
    let mut in0 = zeros(64);
    in0[0] = 7_000_000;
    let in1 = zeros(64);
    let (_, out1) = run_block(&mut p, &in0, &in1, &none, UNIT);
    assert_eq!(out1[4], 7_000_000);
}

#[test]
fn test_release_returns_live() {
    let mut p = Processor::new(1_000);
    let silent = zeros(64);
    let none: Vec<Trig> = vec![];
    run_block(&mut p, &silent, &silent, &none, UNIT);
    let freeze = vec![Trig { offset: 0, length: Some(68_000) }];
    run_block(&mut p, &silent, &silent, &freeze, UNIT);
    run_block(&mut p, &silent, &silent, &none, UNIT);
    // Release: live input passes straight through the wet path again.
    let release = vec![Trig { offset: 0, length: None }];
    let mut in0 = zeros(64);
    let mut in1 = zeros(64);
    let mut i: usize = 0;
    while i < 64 {
        in0[i] = (i as i32) * 10 + 1;
        in1[i] = -(i as i32) * 3 - 2;
        i = i + 1;
    }
    let (out0, out1) = run_block(&mut p, &in0, &in1, &release, UNIT);
    assert_eq!(out0, in0);
    assert_eq!(out1, in1);
}

#[test]
fn test_drywet_debounce() {
    // A request within one ten-thousandth of the settled blend must not
    // restart the ramp: the blend stays fully dry and the output stays
    // exactly the input, block after block.
    let mut p = Processor::new(1_000);
    let none: Vec<Trig> = vec![];
    let mut in0 = zeros(64);
    let mut in1 = zeros(64);
    let mut i: usize = 0;
    while i < 64 {
        in0[i] = 1_000 + (i as i32);
        in1[i] = 2_000 - (i as i32);
        i = i + 1;
    }
    let mut block: usize = 0;
    while block < 4 {
        let (out0, out1) = run_block(&mut p, &in0, &in1, &none, 100);
        assert_eq!(out0, in0);
        assert_eq!(out1, in1);
        block = block + 1;
    }
}

#[test]
fn test_drywet_clamped() {
    // Requests beyond the range are clamped: far above unity behaves as
    // full wet (output equals the effect signal, here the live input under
    // bypass), far below zero as full dry.
    let mut p = Processor::new(1_000);
    let silent = zeros(64);
    let none: Vec<Trig> = vec![];
    run_block(&mut p, &silent, &silent, &none, 5_000_000);
    let mut in0 = zeros(64);
    in0[7] = 9_000_000;
    let in1 = zeros(64);
    let (out0, out1) = run_block(&mut p, &in0, &in1, &none, 5_000_000);
    assert_eq!(out0, in0);
    assert_eq!(out1, in1);

    let mut q = Processor::new(1_000);
    let (qout0, qout1) = run_block(&mut q, &in0, &in1, &none, -5_000_000);
    assert_eq!(qout0, in0);
    assert_eq!(qout1, in1);
}
