use vstd::prelude::*;

verus! {

/// How often each kind of update runs: `hid_steps` hidden updates before each
/// update of the read/write channels, `rec_steps` of those per round, and
/// `sup_steps` rounds.
#[derive(Clone, Copy, Debug, PartialEq, Eq, Structural)]
pub struct StepBudget {
    pub sup_steps: usize,
    pub rec_steps: usize,
    pub hid_steps: usize,
}

/// What one step asks of the caller, who holds the substrate.
#[derive(Clone, Copy, Debug, PartialEq, Eq, Structural)]
pub enum Phase {
    /// Every round is complete; nothing is left to do.
    Done,
    /// A round is complete; the substrate stays as it is.
    NextRound,
    /// Update the read/write visible channels.
    UpdateRw,
    /// Update the hidden channels.
    UpdateHidden,
}

/// The step counters of the scalar backend.
#[derive(Clone, Copy, Debug, PartialEq, Eq, Structural)]
pub struct NCAExecutorCpu {
    pub budget: StepBudget,
    pub sup_steps: usize,
    pub rec_steps: usize,
    pub hid_steps: usize,
}

impl NCAExecutorCpu {
    /// The counters after one step, and what the step asks for.
    pub open spec fn stepped(&self) -> (Self, Phase) {
        if self.sup_steps >= self.budget.sup_steps {
            (*self, Phase::Done)
        } else if self.rec_steps >= self.budget.rec_steps {
            (
                NCAExecutorCpu {
                    budget: self.budget,
                    sup_steps: (self.sup_steps + 1) as usize,
                    rec_steps: 0,
                    hid_steps: 0,
                },
                Phase::NextRound,
            )
        } else if self.hid_steps >= self.budget.hid_steps {
            (
                NCAExecutorCpu {
                    budget: self.budget,
                    sup_steps: self.sup_steps,
                    rec_steps: (self.rec_steps + 1) as usize,
                    hid_steps: 0,
                },
                Phase::UpdateRw,
            )
        } else {
            (
                NCAExecutorCpu {
                    budget: self.budget,
                    sup_steps: self.sup_steps,
                    rec_steps: self.rec_steps,
                    hid_steps: (self.hid_steps + 1) as usize,
                },
                Phase::UpdateHidden,
            )
        }
    }

    /// Rounds, read/write updates of the current round and hidden updates
    /// before the next read/write update that are still to come; it falls,
    /// read as a number with these three digits, with every step but the last.
    pub open spec fn remaining(&self) -> (int, int, int) {
        (
            self.budget.sup_steps - self.sup_steps,
            self.budget.rec_steps - self.rec_steps,
            self.budget.hid_steps - self.hid_steps,
        )
    }

    pub fn new(budget: StepBudget) -> (executor: Self)
        ensures
            executor == (NCAExecutorCpu { budget, sup_steps: 0, rec_steps: 0, hid_steps: 0 }),
    {
        Self { budget, sup_steps: 0, rec_steps: 0, hid_steps: 0 }
    }

    /// Executes one iteration step.
    pub fn step(&mut self) -> (phase: Phase)
        ensures
            *final(self) == old(self).stepped().0,
            phase == old(self).stepped().1,
            phase is Done ==> *final(self) == *old(self),
            phase is NextRound ==> final(self).remaining().0 < old(self).remaining().0,
            phase is UpdateRw ==> final(self).remaining().0 == old(self).remaining().0,
            phase is UpdateRw ==> final(self).remaining().1 < old(self).remaining().1,
            phase is UpdateHidden ==> final(self).remaining().0 == old(self).remaining().0,
            phase is UpdateHidden ==> final(self).remaining().1 == old(self).remaining().1,
            phase is UpdateHidden ==> final(self).remaining().2 < old(self).remaining().2,
    {
        if self.sup_steps >= self.budget.sup_steps {
            return Phase::Done;
        }
        if self.rec_steps >= self.budget.rec_steps {
            self.sup_steps += 1;
            self.rec_steps = 0;
            self.hid_steps = 0;
            Phase::NextRound
        } else if self.hid_steps >= self.budget.hid_steps {
            self.rec_steps += 1;
            self.hid_steps = 0;
            Phase::UpdateRw
        } else {
            self.hid_steps += 1;
            Phase::UpdateHidden
        }
    }
}

/// A counter that has reported `Done` reports `Done` again and stays as it is.
pub proof fn lemma_done_stays_done(executor: NCAExecutorCpu)
    requires
        executor.stepped().1 is Done,
    ensures
        executor.stepped().0 == executor,
        executor.stepped().0.stepped() == executor.stepped(),
{
}

} // verus!
