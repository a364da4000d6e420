use enca::lmcma::{
    check_termination, merged_ranking, past_generations_a, population_sizes, psr_rank_difference, SlotRing,
    StopSignals, TerminationReason,
};

fn signals(time_limit_reached: bool, sigma_at_floor: bool, history_flat: bool) -> StopSignals {
    StopSignals { time_limit_reached, sigma_at_floor, history_flat }
}

#[test]
fn termination_checks_come_in_order() {
    assert_eq!(check_termination(signals(false, false, false), 10, 100), None);
    assert_eq!(
        check_termination(signals(true, true, true), 100, 100),
        Some(TerminationReason::TimeLimit)
    );
    assert_eq!(
        check_termination(signals(false, true, true), 100, 100),
        Some(TerminationReason::MinSigma)
    );
    assert_eq!(
        check_termination(signals(false, false, true), 100, 100),
        Some(TerminationReason::MaxFunctionEvaluations)
    );
    assert_eq!(
        check_termination(signals(false, false, true), 99, 100),
        Some(TerminationReason::TolFunHist)
    );
    assert_eq!(
        check_termination(signals(false, false, false), 101, 100),
        Some(TerminationReason::MaxFunctionEvaluations)
    );
}

#[test]
fn history_window_rounds_up() {
    assert_eq!(past_generations_a(10, 4), 85);
    assert_eq!(past_generations_a(10, 7), 53);
    assert_eq!(past_generations_a(120, 18), 210);
    assert_eq!(past_generations_a(0, 2), 10);
    assert_eq!(past_generations_a(1, 30), 11);
    assert_eq!(past_generations_a(1, 31), 11);
}

#[test]
fn population_is_at_least_two() {
    assert_eq!(population_sizes(0), (2, 1));
    assert_eq!(population_sizes(1), (2, 1));
    assert_eq!(population_sizes(2), (2, 1));
    assert_eq!(population_sizes(9), (9, 4));
    assert_eq!(population_sizes(18), (18, 9));
}

#[test]
fn rank_difference_weighs_ranks() {
    assert_eq!(psr_rank_difference(&vec![]), 0);
    assert_eq!(psr_rank_difference(&vec![true, false, true, false]), 2);
    assert_eq!(psr_rank_difference(&vec![true, true, false, false]), 4);
    assert_eq!(psr_rank_difference(&vec![false, false, true, true]), -4);
    assert_eq!(psr_rank_difference(&vec![false, true]), -1);
}

#[test]
fn slots_fill_in_order_then_rotate() {
    let mut ring = SlotRing::new(3, 1, 2);
    assert_eq!(ring.it(), 0);
    assert_eq!(ring.n_generations(), 0);

    let r = ring.refresh().unwrap();
    assert_eq!((r.slot, r.start, r.stored, r.evicted), (0, 0, 1, None));
    ring.next_generation();
    let r = ring.refresh().unwrap();
    assert_eq!((r.slot, r.start, r.stored, r.evicted), (1, 0, 2, None));
    ring.next_generation();
    let r = ring.refresh().unwrap();
    assert_eq!((r.slot, r.start, r.stored, r.evicted), (2, 0, 3, None));
    assert_eq!(ring.it(), 3);
    ring.next_generation();

    // marks 0, 1, 2: both gaps are -1, the first one gives way
    let r = ring.refresh().unwrap();
    assert_eq!((r.slot, r.start, r.stored, r.evicted), (1, 0, 3, Some(1)));
    assert_eq!((ring.slot_at(0), ring.slot_at(1), ring.slot_at(2)), (0, 2, 1));
    ring.next_generation();

    // marks 0, 3, 2 in order 0, 2, 1: gaps 0 and -1
    let r = ring.refresh().unwrap();
    assert_eq!((r.slot, r.start, r.stored, r.evicted), (1, 2, 3, Some(2)));
    assert_eq!((ring.slot_at(0), ring.slot_at(1), ring.slot_at(2)), (0, 2, 1));
    ring.next_generation();

    // marks 0, 4, 2 in order 0, 2, 1: gaps 0 and 0, the front gives way
    let r = ring.refresh().unwrap();
    assert_eq!((r.slot, r.start, r.stored, r.evicted), (0, 0, 3, Some(0)));
    assert_eq!((ring.slot_at(0), ring.slot_at(1), ring.slot_at(2)), (2, 1, 0));
    assert_eq!(ring.n_generations(), 5);
}

#[test]
fn refresh_comes_every_period() {
    let mut ring = SlotRing::new(2, 3, 1);
    let mut due = vec![];
    for generation in 0..10 {
        if let Some(r) = ring.refresh() {
            due.push((generation, r.slot, r.stored));
        }
        ring.next_generation();
    }
    // generations 0, 3 fill slots 0, 1; at 6 the marks 0 and 3 have gap 2 >= 0: front gives way
    assert_eq!(due, vec![(0, 0, 1), (3, 1, 2), (6, 0, 2), (9, 1, 2)]);
}

#[test]
fn single_slot_is_reused() {
    let mut ring = SlotRing::new(1, 1, 5);
    for _ in 0..4 {
        let r = ring.refresh().unwrap();
        assert_eq!((r.slot, r.start, r.stored, r.evicted), (0, 0, 1, None));
        ring.next_generation();
    }
}

#[test]
fn merged_ranking_puts_current_first_among_equals() {
    assert_eq!(merged_ranking(&vec![1, 3], &vec![2, 3]), vec![true, false, true, false]);
    assert_eq!(merged_ranking(&vec![5, 5], &vec![1, 9]), vec![false, true, true, false]);
    assert_eq!(merged_ranking(&vec![], &vec![]), Vec::<bool>::new());
    assert_eq!(
        psr_rank_difference(&merged_ranking(&vec![1, 2], &vec![i64::MAX, i64::MAX])),
        4
    );
}
