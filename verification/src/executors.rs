use vstd::prelude::*;

pub mod cpu;
pub mod gpu;

verus! {

/// Which engine runs the automaton.
#[derive(Clone, Copy, Debug, PartialEq, Eq, Structural)]
pub enum Backend {
    CPU,
    GPU,
}

/// Why a single automaton stopped.
#[derive(Clone, Copy, Debug, PartialEq, Eq, Structural)]
pub enum TerminationReason {
    MaxSteps,
    Convergence { steps: usize },
}

/// The step counter of one automaton.
///
/// The substrate itself lives with the caller, who applies the update rule
/// once before each call of `step` in which `has_budget` holds, and reports
/// whether the update changed every channel by less than the convergence
/// threshold.
#[derive(Clone, Copy, Debug, PartialEq, Eq, Structural)]
pub struct NCAExecutor {
    /// Step budget of the rule
    pub max_steps: usize,
    /// Number of update steps completed so far
    pub steps: usize,
    /// Termination reason
    pub reason: Option<TerminationReason>,
}

impl NCAExecutor {
    /// Whether the next `step` applies the update rule.
    pub open spec fn budget_left(&self) -> bool {
        self.steps < self.max_steps
    }

    /// The executor after one step, and what the step returns.
    pub open spec fn stepped(&self, converged: bool) -> (Self, Option<TerminationReason>) {
        if self.steps >= self.max_steps {
            (
                NCAExecutor {
                    max_steps: self.max_steps,
                    steps: self.steps,
                    reason: Some(TerminationReason::MaxSteps),
                },
                Some(TerminationReason::MaxSteps),
            )
        } else if converged {
            let reason = Some(TerminationReason::Convergence { steps: (self.steps + 1) as usize });
            (
                NCAExecutor {
                    max_steps: self.max_steps,
                    steps: (self.steps + 1) as usize,
                    reason,
                },
                reason,
            )
        } else {
            (
                NCAExecutor {
                    max_steps: self.max_steps,
                    steps: (self.steps + 1) as usize,
                    reason: self.reason,
                },
                None,
            )
        }
    }

    pub fn new(max_steps: usize) -> (executor: Self)
        ensures
            executor.max_steps == max_steps,
            executor.steps == 0,
            executor.reason is None,
    {
        Self { max_steps, steps: 0, reason: None }
    }

    /// Whether the next `step` applies the update rule to the substrate.
    pub fn has_budget(&self) -> (left: bool)
        ensures
            left == self.budget_left(),
    {
        self.steps < self.max_steps
    }

    /// Executes one iteration step. Returns `Some` if max_steps reached or convergence.
    ///
    /// With the budget used up the step counts nothing and reports `MaxSteps`,
    /// whatever `converged` says. Otherwise the update is counted, and the
    /// step reports `Convergence` exactly when `converged` holds.
    pub fn step(&mut self, converged: bool) -> (reason: Option<TerminationReason>)
        ensures
            *final(self) == old(self).stepped(converged).0,
            reason == old(self).stepped(converged).1,
            reason is None ==> final(self).max_steps - final(self).steps < old(self).max_steps
                - old(self).steps,
            !old(self).budget_left() ==> final(self).steps == old(self).steps && reason == Some(
                TerminationReason::MaxSteps,
            ),
    {
        // Stop when max steps reached
        if self.steps >= self.max_steps {
            self.reason = Some(TerminationReason::MaxSteps);
            return self.reason;
        }
        self.steps += 1;

        // Stop on convergence
        if converged {
            self.reason = Some(TerminationReason::Convergence { steps: self.steps });
            return self.reason;
        }
        None
    }
}

/// Once the step budget is used up, any number of further steps leaves the
/// counter where it is, asks for no update of the substrate and returns
/// `MaxSteps` each time.
pub proof fn lemma_step_after_max_steps(executor: NCAExecutor, first: bool, second: bool)
    requires
        !executor.budget_left(),
    ensures
        !executor.stepped(first).0.budget_left(),
        executor.stepped(first).0.steps == executor.steps,
        executor.stepped(first).1 == Some(TerminationReason::MaxSteps),
        executor.stepped(first).0.stepped(second) == executor.stepped(first),
{
}

/// The step counters of a chain of automata run one after another.
///
/// The caller holds the substrates. When `curr_exec_idx` has advanced after
/// a `step`, the caller clears the hidden channels of the finished stage's
/// substrate and hands it to the new stage.
#[derive(Debug)]
pub struct NCAEnsembleExecutor {
    /// Individual executors for each stage
    pub executors: Vec<NCAExecutor>,
    /// Index of active executor
    pub curr_exec_idx: usize,
    /// Current iteration steps
    pub steps: usize,
    /// Termination reasons for individual executors
    pub reasons: Vec<Option<TerminationReason>>,
}

impl NCAEnsembleExecutor {
    /// Number of stages.
    pub open spec fn stages(&self) -> nat {
        self.executors@.len()
    }

    /// There is a stage, the active index names one, and every stage has a
    /// slot for its termination reason.
    pub open spec fn wf(&self) -> bool {
        &&& self.executors@.len() > 0
        &&& self.curr_exec_idx < self.executors@.len()
        &&& self.reasons@.len() >= self.executors@.len()
    }

    /// Every stage before the active one has its termination recorded.
    pub open spec fn earlier_stages_recorded(&self) -> bool {
        forall|j: int| 0 <= j < self.curr_exec_idx ==> (#[trigger] self.reasons@[j]) is Some
    }

    /// Every stage has its termination recorded.
    pub open spec fn all_stages_recorded(&self) -> bool {
        forall|j: int| 0 <= j < self.executors@.len() ==> (#[trigger] self.reasons@[j]) is Some
    }

    /// The active stage after one step, and what its step returns.
    pub open spec fn active_outcome(&self, converged: bool) -> (
        NCAExecutor,
        Option<TerminationReason>,
    ) {
        self.executors@[self.curr_exec_idx as int].stepped(converged)
    }

    /// Whether a step ends the active stage with a later stage to follow.
    pub open spec fn hands_over(&self, converged: bool) -> bool {
        self.active_outcome(converged).1 is Some && self.curr_exec_idx + 1 < self.stages()
    }

    /// One executor per step budget, the first one active.
    pub fn new(max_steps: &Vec<usize>) -> (ensemble: Self)
        ensures
            ensemble.executors@.len() == max_steps@.len(),
            ensemble.reasons@.len() == max_steps@.len(),
            forall|j: int|
                0 <= j < max_steps@.len() ==> (#[trigger] ensemble.executors@[j]) == (NCAExecutor {
                    max_steps: max_steps@[j],
                    steps: 0,
                    reason: None,
                }),
            forall|j: int| 0 <= j < max_steps@.len() ==> (#[trigger] ensemble.reasons@[j]) is None,
            ensemble.curr_exec_idx == 0,
            ensemble.steps == 0,
            ensemble.earlier_stages_recorded(),
            max_steps@.len() > 0 ==> ensemble.wf(),
    {
        let mut executors: Vec<NCAExecutor> = Vec::new();
        let mut reasons: Vec<Option<TerminationReason>> = Vec::new();
        let mut j: usize = 0;
        while j < max_steps.len()
            invariant
                j <= max_steps.len(),
                executors.len() == j,
                reasons.len() == j,
                forall|i: int|
                    0 <= i < j ==> (#[trigger] executors@[i]) == (NCAExecutor {
                        max_steps: max_steps@[i],
                        steps: 0,
                        reason: None,
                    }),
                forall|i: int| 0 <= i < j ==> (#[trigger] reasons@[i]) is None,
            decreases max_steps.len() - j,
        {
            executors.push(NCAExecutor::new(max_steps[j]));
            reasons.push(None);
            j += 1;
        }
        Self { executors, curr_exec_idx: 0, steps: 0, reasons }
    }

    /// Puts a fresh executor with budget `max_steps` at stage `i`, or appends
    /// it as a new active stage when `i` is past the last stage. One more
    /// slot for a termination reason is added either way.
    pub fn upsert_nca(&mut self, max_steps: usize, i: usize)
        requires
            old(self).wf(),
        ensures
            final(self).wf(),
            final(self).steps == old(self).steps,
            final(self).reasons@ == old(self).reasons@.push(None),
            i >= old(self).stages() ==> final(self).executors@ == old(self).executors@.push(
                NCAExecutor { max_steps, steps: 0, reason: None },
            ) && final(self).curr_exec_idx == old(self).curr_exec_idx + 1,
            i < old(self).stages() ==> final(self).executors@ == old(self).executors@.update(
                i as int,
                NCAExecutor { max_steps, steps: 0, reason: None },
            ) && final(self).curr_exec_idx == old(self).curr_exec_idx,
            old(self).earlier_stages_recorded() && (i < old(self).stages() || old(self).reasons@[old(self).curr_exec_idx as int] is Some) ==> final(self).earlier_stages_recorded(),
    {
        let new_executor = NCAExecutor::new(max_steps);
        self.reasons.push(None);
        if i >= self.executors.len() {
            self.executors.push(new_executor);
            self.curr_exec_idx += 1;
        } else {
            self.executors[i] = new_executor;
        }
    }

    /// Executes one iteration step of the active stage.
    ///
    /// The active stage's outcome is recorded in its slot. While it runs, and
    /// when it ends with a later stage to follow, the result is `None`; in
    /// the second case the next stage becomes active. When the last stage
    /// ends, its reason is returned.
    pub fn step(&mut self, converged: bool) -> (reason: Option<TerminationReason>)
        requires
            old(self).wf(),
            old(self).steps < usize::MAX,
        ensures
            final(self).wf(),
            final(self).steps == old(self).steps + 1,
            final(self).executors@ == old(self).executors@.update(
                old(self).curr_exec_idx as int,
                old(self).active_outcome(converged).0,
            ),
            final(self).reasons@ == old(self).reasons@.update(
                old(self).curr_exec_idx as int,
                old(self).active_outcome(converged).1,
            ),
            final(self).curr_exec_idx == old(self).curr_exec_idx + (if old(self).hands_over(
                converged,
            ) {
                1int
            } else {
                0int
            }),
            reason == (if old(self).curr_exec_idx + 1 < old(self).stages() {
                None
            } else {
                old(self).active_outcome(converged).1
            }),
            old(self).earlier_stages_recorded() ==> final(self).earlier_stages_recorded(),
            old(self).earlier_stages_recorded() && reason is Some ==> final(self).all_stages_recorded(),
    {
        let idx: usize = self.curr_exec_idx;
        let mut current: NCAExecutor = self.executors[idx];
        let reason = current.step(converged);
        self.executors[idx] = current;
        self.reasons[idx] = reason;
        self.steps += 1;

        // Continue with current executor
        if reason.is_none() {
            return None;
        }
        // Move to next executor

        if self.curr_exec_idx < self.executors.len() - 1 {
            self.curr_exec_idx += 1;
            return None;
        }
        reason
    }
}

} // verus!
