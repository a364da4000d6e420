use enca::utils::{median, sorted_ascending, stable_rank, union_sets};
use std::collections::HashSet;

#[test]
fn median_of_odd_and_even_counts() {
    assert_eq!(median(&vec![7]), 7);
    assert_eq!(median(&vec![3, 1, 2]), 2);
    assert_eq!(median(&vec![4, 1, 3, 2]), 2);
    assert_eq!(median(&vec![50, 1]), 25);
    assert_eq!(median(&vec![5, 5, 1, 9, 5]), 5);
    assert_eq!(median(&vec![usize::MAX, usize::MAX]), usize::MAX);
    assert_eq!(median(&vec![usize::MAX, usize::MAX - 1]), usize::MAX - 1);
}

#[test]
fn sorted_ascending_sorts() {
    assert_eq!(sorted_ascending(&vec![3, 1, 2, 1]), vec![1, 1, 2, 3]);
    assert_eq!(sorted_ascending(&vec![]), Vec::<usize>::new());
}

#[test]
fn union_sets_unites() {
    let a: HashSet<u8> = [0, 1].into_iter().collect();
    let b: HashSet<u8> = [1, 255].into_iter().collect();
    let u = union_sets(&vec![&a, &b]);
    let expected: HashSet<u8> = [0, 1, 255].into_iter().collect();
    assert_eq!(u, expected);
    assert_eq!(union_sets(&vec![]), HashSet::new());
}

#[test]
fn stable_rank_orders_places() {
    assert_eq!(stable_rank(&vec![3, 1, 2, 1], false), vec![1, 3, 2, 0]);
    assert_eq!(stable_rank(&vec![3, 1, 2, 1], true), vec![0, 2, 1, 3]);
    assert_eq!(stable_rank(&vec![], true), Vec::<usize>::new());
    assert_eq!(stable_rank(&vec![2, 2, 2], true), vec![0, 1, 2]);
    assert_eq!(stable_rank(&vec![i64::MIN, i64::MAX, 0], false), vec![0, 2, 1]);
}
