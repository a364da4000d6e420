use enca::voting::{majority_vote, vote};

#[test]
fn vote_ranks_by_count() {
    // 7 three times, 8 twice, 5 once; 9 is the input grid itself
    assert_eq!(vote(&vec![7, 7, 8, 9, 8, 7, 5], 9, 2), vec![0, 2]);
    assert_eq!(vote(&vec![7, 7, 8, 9, 8, 7, 5], 9, 3), vec![0, 2, 6]);
    assert_eq!(vote(&vec![7, 7, 8, 9, 8, 7, 5], 9, 10), vec![0, 2, 6]);
    assert_eq!(vote(&vec![7, 7, 8, 9, 8, 7, 5], 9, 0), Vec::<usize>::new());
    assert_eq!(vote(&vec![5, 8, 8, 7, 7, 7], 9, 2), vec![3, 1]);
}

#[test]
fn vote_keeps_insertion_order_among_equal_counts() {
    assert_eq!(vote(&vec![1, 2, 2, 1, 3], 0, 3), vec![0, 1, 4]);
    assert_eq!(vote(&vec![3, 2, 1], 0, 2), vec![0, 1]);
}

#[test]
fn vote_without_winner_keeps_the_first_candidates() {
    assert_eq!(vote(&vec![9, 9, 9], 9, 2), vec![0, 1]);
    assert_eq!(vote(&vec![9], 9, 5), vec![0]);
    assert_eq!(vote(&vec![], 9, 5), Vec::<usize>::new());
}

#[test]
fn majority_vote_takes_the_last_of_the_largest() {
    assert_eq!(majority_vote(&vec![1, 2, 2, 1, 3], 0), Some(1));
    assert_eq!(majority_vote(&vec![1, 2, 2, 1, 1], 0), Some(0));
    assert_eq!(majority_vote(&vec![4, 5, 6], 0), Some(2));
    assert_eq!(majority_vote(&vec![0, 0], 0), None);
    assert_eq!(majority_vote(&vec![], 0), None);
    assert_eq!(majority_vote(&vec![0, 0, 8], 0), Some(2));
}
