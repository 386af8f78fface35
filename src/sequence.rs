use vstd::prelude::*;

verus! {

/// How long the reset line is held low, in milliseconds.
pub const RESET_PULSE_MS: u32 = 20;

/// Each of the two waits after reset is released, in milliseconds.
pub const RESET_SETTLE_MS: u32 = 200;

/// The wait after each register read, in milliseconds.
pub const READ_INTERVAL_MS: u32 = 200;

/// Register that holds the controller's chip identifier.
pub const CHIP_ID_REGISTER: u8 = 0xA3;

/// Number of register reads the bring-up sequence makes.
pub const READ_COUNT: usize = 19;

/// Number of steps before the first register read.
pub const RESET_STEPS: usize = 5;

/// One step of the bring-up sequence.
#[derive(PartialEq, Eq, Structural, Clone, Copy, Debug)]
pub enum Step {
    /// Drive the reset pin low (assert reset).
    PinLow,
    /// Drive the reset pin high (release reset).
    PinHigh,
    /// Block for the given number of milliseconds.
    DelayMs(u32),
    /// Read one register of a device and print the report.
    ReadRegister { device: u8, register: u8 },
}

/// A step that drives the reset pin; only these can fail.
pub open spec fn is_pin_step(s: Step) -> bool {
    s is PinLow || s is PinHigh
}

/// The bring-up sequence: reset pulse, settle time, then `reads` reads of
/// `register` on `device`, each followed by a pause.
pub open spec fn reset_plan(device: u8, register: u8, reads: nat) -> Seq<Step> {
    seq![
        Step::PinLow,
        Step::DelayMs(RESET_PULSE_MS),
        Step::PinHigh,
        Step::DelayMs(RESET_SETTLE_MS),
        Step::DelayMs(RESET_SETTLE_MS),
    ] + Seq::new(
        2 * reads,
        |i: int|
            if i % 2 == 0 {
                Step::ReadRegister { device, register }
            } else {
                Step::DelayMs(READ_INTERVAL_MS)
            },
    )
}

/// Builds the bring-up sequence for `reads` reads of `register` on `device`.
pub fn reset_and_read_plan(device: u8, register: u8, reads: usize) -> (r: Vec<Step>)
    requires
        reads <= (usize::MAX - RESET_STEPS) / 2,
    ensures
        r@ == reset_plan(device, register, reads as nat),
{
    let mut r: Vec<Step> = Vec::new();
    r.push(Step::PinLow);
    r.push(Step::DelayMs(RESET_PULSE_MS));
    r.push(Step::PinHigh);
    r.push(Step::DelayMs(RESET_SETTLE_MS));
    r.push(Step::DelayMs(RESET_SETTLE_MS));
    let mut k: usize = 0;
    while k < reads
        invariant
            k <= reads <= (usize::MAX - RESET_STEPS) / 2,
            r@ == reset_plan(device, register, k as nat),
        decreases reads - k,
    {
        r.push(Step::ReadRegister { device, register });
        r.push(Step::DelayMs(READ_INTERVAL_MS));
        k = k + 1;
        assert(r@ =~= reset_plan(device, register, k as nat));
    }
    r
}

/// Both pin drives of the bring-up sequence come before every register
/// read, and they are separated by the reset pulse and followed by the two
/// settle waits; so a failed drive, which ends the sequence, ends it
/// before any read was issued.
pub proof fn lemma_pin_steps_precede_reads(device: u8, register: u8, reads: nat)
    ensures
        forall|i: int, j: int|
            0 <= i < reset_plan(device, register, reads).len() && 0 <= j < reset_plan(
                device,
                register,
                reads,
            ).len() && is_pin_step(#[trigger] reset_plan(device, register, reads)[i])
                && #[trigger] reset_plan(device, register, reads)[j] is ReadRegister ==> i < j,
        reset_plan(device, register, reads).take(RESET_STEPS as int) == seq![
            Step::PinLow,
            Step::DelayMs(RESET_PULSE_MS),
            Step::PinHigh,
            Step::DelayMs(RESET_SETTLE_MS),
            Step::DelayMs(RESET_SETTLE_MS),
        ],
{
    let p = reset_plan(device, register, reads);
    assert forall|i: int, j: int|
        0 <= i < p.len() && 0 <= j < p.len() && is_pin_step(#[trigger] p[i])
            && #[trigger] p[j] is ReadRegister implies i < j by {
        if i >= RESET_STEPS {
            let m = i - RESET_STEPS;
            assert(p[i] == (if m % 2 == 0 {
                Step::ReadRegister { device, register }
            } else {
                Step::DelayMs(READ_INTERVAL_MS)
            }));
        }
        if j < RESET_STEPS {
            assert(p[j] == seq![
                Step::PinLow,
                Step::DelayMs(RESET_PULSE_MS),
                Step::PinHigh,
                Step::DelayMs(RESET_SETTLE_MS),
                Step::DelayMs(RESET_SETTLE_MS),
            ][j]);
        }
    }
    assert(p.take(RESET_STEPS as int) =~= seq![
        Step::PinLow,
        Step::DelayMs(RESET_PULSE_MS),
        Step::PinHigh,
        Step::DelayMs(RESET_SETTLE_MS),
        Step::DelayMs(RESET_SETTLE_MS),
    ]);
}

/// Progress through a bring-up sequence: the steps, how many have been
/// carried out, and whether a failed pin drive ended it.
pub struct ResetSequence {
    steps: Vec<Step>,
    done: usize,
    failed: bool,
}

impl ResetSequence {
    /// The steps of the sequence.
    pub closed spec fn plan(&self) -> Seq<Step> {
        self.steps@
    }

    /// How many steps have been carried out.
    pub closed spec fn position(&self) -> nat {
        self.done as nat
    }

    /// Whether a failed pin drive ended the sequence.
    pub closed spec fn has_failed(&self) -> bool {
        self.failed
    }

    /// The count of steps carried out stays within the plan.
    pub closed spec fn wf(&self) -> bool {
        self.done <= self.steps@.len()
    }

    /// A sequence at its start, for `reads` reads of `register` on `device`.
    pub fn new(device: u8, register: u8, reads: usize) -> (r: ResetSequence)
        requires
            reads <= (usize::MAX - RESET_STEPS) / 2,
        ensures
            r.wf(),
            r.plan() == reset_plan(device, register, reads as nat),
            r.position() == 0,
            !r.has_failed(),
    {
        ResetSequence { steps: reset_and_read_plan(device, register, reads), done: 0, failed: false }
    }

    /// The step to carry out now: none once every step is done or a pin
    /// drive has failed.
    pub fn next_step(&self) -> (r: Option<Step>)
        requires
            self.wf(),
        ensures
            r == (if self.has_failed() || self.position() >= self.plan().len() {
                None
            } else {
                Some(self.plan()[self.position() as int])
            }),
    {
        if self.failed || self.done >= self.steps.len() {
            None
        } else {
            Some(self.steps[self.done])
        }
    }

    /// Records the outcome of the current step. A failed pin drive ends the
    /// sequence where it stands; delays and reads cannot fail, so their
    /// outcome only moves the sequence on.
    pub fn complete(&mut self, ok: bool)
        requires
            old(self).wf(),
            !old(self).has_failed(),
            old(self).position() < old(self).plan().len(),
        ensures
            final(self).wf(),
            final(self).plan() == old(self).plan(),
            final(self).has_failed() == (!ok && is_pin_step(
                old(self).plan()[old(self).position() as int],
            )),
            final(self).position() == if final(self).has_failed() {
                old(self).position()
            } else {
                old(self).position() + 1
            },
    {
        let n = self.steps.len();
        let step = self.steps[self.done];
        let pin = match step {
            Step::PinLow => true,
            Step::PinHigh => true,
            _ => false,
        };
        if !ok && pin {
            self.failed = true;
        } else {
            assert(self.done < n);
            self.done = self.done + 1;
        }
    }

    /// Whether a failed pin drive ended the sequence.
    pub fn failed(&self) -> (r: bool)
        ensures
            r == self.has_failed(),
    {
        self.failed
    }
}

/// Once a pin drive of the bring-up sequence fails, the sequence offers no
/// further step, and no register read was offered before it: every read
/// stands after the failed step.
pub proof fn lemma_failed_drive_issues_no_read(
    s: ResetSequence,
    device: u8,
    register: u8,
    reads: nat,
)
    requires
        s.wf(),
        s.plan() == reset_plan(device, register, reads),
        s.has_failed(),
        s.position() < s.plan().len(),
        is_pin_step(s.plan()[s.position() as int]),
    ensures
        forall|j: int|
            0 <= j <= s.position() ==> !(#[trigger] s.plan()[j] is ReadRegister),
{
    lemma_pin_steps_precede_reads(device, register, reads);
    assert forall|j: int|
        0 <= j <= s.position() implies !(#[trigger] s.plan()[j] is ReadRegister) by {
        let i = s.position() as int;
        if s.plan()[j] is ReadRegister {
            assert(is_pin_step(reset_plan(device, register, reads)[i]));
            assert(reset_plan(device, register, reads)[j] is ReadRegister);
        }
    }
}

} // verus!
