use touch_sensor::sequence::{
    reset_and_read_plan, ResetSequence, Step, CHIP_ID_REGISTER, READ_COUNT,
};

#[test]
fn reset_plan_pulses_then_settles_then_reads() {
    let plan = reset_and_read_plan(0x15, CHIP_ID_REGISTER, 2);
    assert_eq!(
        plan,
        vec![
            Step::PinLow,
            Step::DelayMs(20),
            Step::PinHigh,
            Step::DelayMs(200),
            Step::DelayMs(200),
            Step::ReadRegister { device: 0x15, register: 0xA3 },
            Step::DelayMs(200),
            Step::ReadRegister { device: 0x15, register: 0xA3 },
            Step::DelayMs(200),
        ]
    );
}

#[test]
fn full_plan_has_nineteen_reads() {
    let plan = reset_and_read_plan(0x15, CHIP_ID_REGISTER, READ_COUNT);
    assert_eq!(plan.len(), 5 + 2 * 19);
    let reads = plan.iter().filter(|s| matches!(s, Step::ReadRegister { .. })).count();
    assert_eq!(reads, 19);
}

fn run(seq: &mut ResetSequence, fail_at: Option<usize>) -> Vec<Step> {
    let mut issued = Vec::new();
    while let Some(step) = seq.next_step() {
        let ok = fail_at != Some(issued.len());
        issued.push(step);
        seq.complete(ok);
    }
    issued
}

#[test]
fn sequence_runs_every_step_when_pins_succeed() {
    let mut seq = ResetSequence::new(0x15, CHIP_ID_REGISTER, 3);
    let issued = run(&mut seq, None);
    assert_eq!(issued, reset_and_read_plan(0x15, CHIP_ID_REGISTER, 3));
    assert!(!seq.failed());
}

#[test]
fn failed_reset_assert_stops_before_any_read() {
    let mut seq = ResetSequence::new(0x15, CHIP_ID_REGISTER, 3);
    let issued = run(&mut seq, Some(0));
    assert_eq!(issued, vec![Step::PinLow]);
    assert!(seq.failed());
    assert_eq!(seq.next_step(), None);
}

#[test]
fn failed_reset_release_stops_before_any_read() {
    let mut seq = ResetSequence::new(0x15, CHIP_ID_REGISTER, 3);
    let issued = run(&mut seq, Some(2));
    assert_eq!(issued, vec![Step::PinLow, Step::DelayMs(20), Step::PinHigh]);
    assert!(seq.failed());
}

#[test]
fn delay_and_read_outcomes_do_not_stop_the_sequence() {
    let mut seq = ResetSequence::new(0x15, CHIP_ID_REGISTER, 1);
    let issued = run(&mut seq, Some(5));
    assert_eq!(issued.len(), 7);
    assert!(!seq.failed());
}
