use enca::executors::cpu::{NCAExecutorCpu, Phase, StepBudget};
use enca::executors::gpu::{budgets_equal, grids_fit, pool_slot, LaunchPlan};
use enca::executors::{Backend, NCAEnsembleExecutor, NCAExecutor, TerminationReason};

#[test]
fn executor_stops_at_max_steps() {
    let mut ex = NCAExecutor::new(3);
    assert!(ex.has_budget());
    assert_eq!(ex.step(false), None);
    assert_eq!(ex.step(false), None);
    assert_eq!(ex.step(false), None);
    assert_eq!(ex.steps, 3);
    assert!(!ex.has_budget());
    assert_eq!(ex.reason, None);
    assert_eq!(ex.step(false), Some(TerminationReason::MaxSteps));
    assert_eq!(ex.reason, Some(TerminationReason::MaxSteps));
    assert_eq!(ex.steps, 3);
}

#[test]
fn executor_reports_convergence_with_its_step() {
    let mut ex = NCAExecutor::new(10);
    assert_eq!(ex.step(false), None);
    assert_eq!(ex.step(true), Some(TerminationReason::Convergence { steps: 2 }));
    assert_eq!(ex.reason, Some(TerminationReason::Convergence { steps: 2 }));
    assert_eq!(ex.steps, 2);
}

#[test]
fn step_on_exhausted_executor_changes_nothing() {
    let mut ex = NCAExecutor::new(2);
    ex.step(false);
    ex.step(false);
    let first = ex.step(true);
    let after_first = ex;
    assert!(!ex.has_budget());
    for converged in [false, true, true, false] {
        assert_eq!(ex.step(converged), first);
        assert_eq!(ex, after_first);
        assert!(!ex.has_budget());
    }
    assert_eq!(first, Some(TerminationReason::MaxSteps));
}

#[test]
fn zero_budget_terminates_at_once() {
    let mut ex = NCAExecutor::new(0);
    assert!(!ex.has_budget());
    assert_eq!(ex.step(true), Some(TerminationReason::MaxSteps));
    assert_eq!(ex.steps, 0);
}

#[test]
fn ensemble_runs_its_stages_in_order() {
    let mut ens = NCAEnsembleExecutor::new(&vec![2, 1, 3]);
    assert_eq!(ens.curr_exec_idx, 0);
    assert_eq!(ens.reasons, vec![None, None, None]);
    let mut activations = vec![0usize];
    let mut calls = 0;
    let last = loop {
        // stage 1 converges on its first update, the others never do
        let converged = ens.curr_exec_idx == 1;
        let before = ens.curr_exec_idx;
        let r = ens.step(converged);
        calls += 1;
        if ens.curr_exec_idx != before {
            assert_eq!(ens.curr_exec_idx, before + 1);
            activations.push(ens.curr_exec_idx);
        }
        if let Some(reason) = r {
            break reason;
        }
    };
    assert_eq!(last, TerminationReason::MaxSteps);
    assert_eq!(activations, vec![0, 1, 2]);
    assert_eq!(
        ens.reasons,
        vec![
            Some(TerminationReason::MaxSteps),
            Some(TerminationReason::Convergence { steps: 1 }),
            Some(TerminationReason::MaxSteps),
        ]
    );
    assert_eq!(ens.reasons.iter().filter(|r| r.is_some()).count(), ens.executors.len());
    // 3 calls for stage 0, 1 for stage 1, 4 for stage 2
    assert_eq!(calls, 8);
    assert_eq!(ens.steps, 8);
}

#[test]
fn ensemble_upsert_appends_or_replaces() {
    let mut ens = NCAEnsembleExecutor::new(&vec![1]);
    assert_eq!(ens.step(false), None);
    assert_eq!(ens.step(false), Some(TerminationReason::MaxSteps));
    ens.upsert_nca(4, 1);
    assert_eq!(ens.executors.len(), 2);
    assert_eq!(ens.curr_exec_idx, 1);
    assert_eq!(ens.executors[1], NCAExecutor::new(4));
    assert_eq!(ens.reasons.len(), 2);
    assert_eq!(ens.step(true), Some(TerminationReason::Convergence { steps: 1 }));
    ens.upsert_nca(7, 1);
    assert_eq!(ens.executors.len(), 2);
    assert_eq!(ens.curr_exec_idx, 1);
    assert_eq!(ens.executors[1], NCAExecutor::new(7));
    assert_eq!(ens.executors[0].steps, 1);
    assert_eq!(ens.reasons.len(), 3);
}

#[test]
fn backend_has_two_kinds() {
    assert_ne!(Backend::CPU, Backend::GPU);
    assert_eq!(Backend::CPU.clone(), Backend::CPU);
}

#[test]
fn cpu_schedule_nests_hidden_rw_and_rounds() {
    let mut ex = NCAExecutorCpu::new(StepBudget { sup_steps: 2, rec_steps: 2, hid_steps: 1 });
    let mut phases = vec![];
    loop {
        let p = ex.step();
        phases.push(p);
        if p == Phase::Done {
            break;
        }
        assert!(phases.len() < 100);
    }
    let round = vec![
        Phase::UpdateHidden,
        Phase::UpdateRw,
        Phase::UpdateHidden,
        Phase::UpdateRw,
        Phase::NextRound,
    ];
    let mut expected = round.clone();
    expected.extend(round);
    expected.push(Phase::Done);
    assert_eq!(phases, expected);
    let done = ex;
    assert_eq!(ex.step(), Phase::Done);
    assert_eq!(ex, done);
}

#[test]
fn cpu_schedule_with_empty_budgets() {
    let mut ex = NCAExecutorCpu::new(StepBudget { sup_steps: 0, rec_steps: 3, hid_steps: 6 });
    assert_eq!(ex.step(), Phase::Done);
    let mut ex = NCAExecutorCpu::new(StepBudget { sup_steps: 1, rec_steps: 0, hid_steps: 6 });
    assert_eq!(ex.step(), Phase::NextRound);
    assert_eq!(ex.step(), Phase::Done);
    let mut ex = NCAExecutorCpu::new(StepBudget { sup_steps: 1, rec_steps: 1, hid_steps: 0 });
    assert_eq!(ex.step(), Phase::UpdateRw);
    assert_eq!(ex.step(), Phase::NextRound);
    assert_eq!(ex.step(), Phase::Done);
}

#[test]
fn gpu_batch_conditions() {
    assert!(grids_fit(&vec![(32, 32), (1, 1024), (3, 3)]));
    assert!(!grids_fit(&vec![(3, 3), (33, 32)]));
    assert!(!grids_fit(&vec![(usize::MAX, 2)]));
    assert!(grids_fit(&vec![]));
    assert!(budgets_equal(&vec![10, 10, 10]));
    assert!(!budgets_equal(&vec![10, 10, 11]));
    assert!(budgets_equal(&vec![]));
    assert!(budgets_equal(&vec![4]));
}

#[test]
fn launch_plan_sizes_the_launch() {
    let plan = LaunchPlan::new(&vec![(3, 3), (2, 5)], &vec![10, 10]);
    assert_eq!(plan.n_grids, 2);
    assert_eq!(plan.pop_size, 2);
    assert_eq!(plan.max_grid_size, 10);
    assert_eq!(plan.max_steps, 10);
    assert_eq!(plan.shared_mem_bytes, 400);
    assert_eq!(plan.sub_max_len, 100);
    assert_eq!(plan.ind_subs_total_len, 200);
    assert_eq!(plan.pop_sub_total_len, 400);
    assert_eq!(plan.pop_params_len, 612);
    assert_eq!(plan.substrate_start(0, 0), 0);
    assert_eq!(plan.substrate_start(0, 1), 100);
    assert_eq!(plan.substrate_start(1, 0), 200);
    assert_eq!(plan.substrate_start(1, 1), 300);
}

#[test]
fn pool_slot_wraps_around() {
    assert_eq!(pool_slot(None, 4), 0);
    assert_eq!(pool_slot(Some(3), 4), 3);
    assert_eq!(pool_slot(Some(9), 4), 1);
    assert_eq!(pool_slot(Some(9), 1), 0);
}

#[test]
fn ten_steps_then_max_steps() {
    let mut ex = NCAExecutor::new(10);
    let mut updates = 0;
    let reason = loop {
        if ex.has_budget() {
            updates += 1;
        }
        if let Some(reason) = ex.step(false) {
            break reason;
        }
    };
    assert_eq!(updates, 10);
    assert_eq!(ex.steps, 10);
    assert_eq!(reason, TerminationReason::MaxSteps);
}
