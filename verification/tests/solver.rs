use enca::solver::{final_order, TrainSchedule};

#[test]
fn selection_waits_for_the_median_solve_time() {
    let mut schedule = TrainSchedule::new(12, 3);
    assert!(!schedule.selection_due());
    assert!(!schedule.close_epoch(0, &vec![]));
    assert!(!schedule.close_epoch(1, &vec![]));
    assert!(!schedule.selection_due());
    assert!(!schedule.close_epoch(2, &vec![]));
    assert!(!schedule.selection_due());
    assert!(!schedule.close_epoch(3, &vec![]));
    assert!(schedule.selection_due());
    schedule.selected();
    assert!(!schedule.selection_due());
}

#[test]
fn solves_shorten_the_wait() {
    let mut schedule = TrainSchedule::new(12, 50);
    // solved in epoch 3: born in 0 and in 2; the quicker one took 1 epoch
    assert!(!schedule.close_epoch(3, &vec![0, 2]));
    // median of 50 and 1 is 25
    for epoch in 4..28 {
        assert!(!schedule.selection_due());
        assert!(!schedule.close_epoch(epoch, &vec![]));
    }
    // 25 epochs without selection do not exceed the median
    assert!(!schedule.selection_due());
    schedule.close_epoch(28, &vec![]);
    assert!(schedule.selection_due());
}

#[test]
fn refill_numbers_new_individuals() {
    let mut schedule = TrainSchedule::new(4, 10);
    assert_eq!(schedule.refill(0), vec![0, 1, 2, 3]);
    assert_eq!(schedule.refill(4), Vec::<usize>::new());
    assert_eq!(schedule.refill(9), Vec::<usize>::new());
    assert_eq!(schedule.refill(2), vec![4, 5]);
}

#[test]
fn fifty_solved_are_enough() {
    let mut schedule = TrainSchedule::new(60, 100);
    assert!(!schedule.close_epoch(5, &vec![0; 49]));
    assert!(schedule.close_epoch(6, &vec![1]));
    let mut schedule = TrainSchedule::new(60, 100);
    assert!(schedule.close_epoch(5, &vec![5; 50]));
}

#[test]
fn final_order_is_by_accuracy_then_fitness() {
    assert_eq!(final_order(&vec![3, 1, 2, 1], &vec![5, 5, 9, 5]), vec![2, 1, 3, 0]);
    assert_eq!(final_order(&vec![], &vec![]), Vec::<usize>::new());
    assert_eq!(final_order(&vec![9, 8, 7], &vec![1, 1, 1]), vec![2, 1, 0]);
    assert_eq!(final_order(&vec![1, 1, 1], &vec![1, 2, 3]), vec![2, 1, 0]);
}

#[test]
fn schedule_counts() {
    let mut schedule = TrainSchedule::new(3, 10);
    assert_eq!((schedule.indexer(), schedule.stagnant(), schedule.solved_count()), (0, 0, 0));
    schedule.refill(1);
    schedule.close_epoch(0, &vec![0, 0]);
    assert_eq!((schedule.indexer(), schedule.stagnant(), schedule.solved_count()), (2, 1, 2));
    schedule.selected();
    assert_eq!(schedule.stagnant(), 0);
}

#[test]
fn twelve_individuals_come_back_sorted_by_accuracy() {
    let mut schedule = TrainSchedule::new(12, 50);
    assert_eq!(schedule.refill(0), (0..12).collect::<Vec<usize>>());
    // three are solved in the first epoch and leave the pool, which is filled up again
    assert!(!schedule.close_epoch(0, &vec![0, 0, 0]));
    assert_eq!(schedule.refill(9), vec![12, 13, 14]);
    let accuracy = vec![10, 7, 10, 3, 7, 7, 0, 10, 3, 3, 7, 1];
    let fitness = vec![5, 4, 2, 9, 4, 1, 8, 2, 6, 6, 3, 7];
    let order = final_order(&fitness, &accuracy);
    assert_eq!(order, vec![2, 7, 0, 5, 10, 1, 4, 8, 9, 3, 11, 6]);
    assert_eq!(order.len(), 12);
    for pair in order.windows(2) {
        assert!(accuracy[pair[0]] >= accuracy[pair[1]]);
    }
}
