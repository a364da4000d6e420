use enca::random::{draw_seeds, param_subset, shuffled_indices};
use enca::selector::{Optimize, TournamentSelector};
use rand::SeedableRng;
use rand_chacha::ChaCha8Rng;

#[test]
fn minimize_keeps_lowest_of_each_group() {
    let selector = TournamentSelector::new(2, Optimize::Minimize);
    let scores = vec![5, 1, 3, 2, 4];
    let chosen = selector.select_in_order(&scores, &vec![0, 1, 2, 3, 4]);
    assert_eq!(chosen, vec![1, 3, 4]);
}

#[test]
fn maximize_keeps_highest_of_each_group() {
    let selector = TournamentSelector::new(2, Optimize::Maximize);
    let scores = vec![5, 1, 3, 2, 4];
    let chosen = selector.select_in_order(&scores, &vec![0, 1, 2, 3, 4]);
    assert_eq!(chosen, vec![0, 2, 4]);
}

#[test]
fn groups_follow_the_order_given() {
    let selector = TournamentSelector::new(3, Optimize::Minimize);
    let scores = vec![5, 1, 3, 2, 4, 0, 9];
    let chosen = selector.select_in_order(&scores, &vec![6, 4, 0, 2, 3, 1, 5]);
    // groups: (6,4,0) -> 4; (2,3,1) -> 1; (5) -> 5
    assert_eq!(chosen, vec![4, 1, 5]);
}

#[test]
fn first_in_order_wins_a_tie() {
    let selector = TournamentSelector::new(4, Optimize::Minimize);
    let scores = vec![2, 2, 2, 2];
    assert_eq!(selector.select_in_order(&scores, &vec![2, 0, 3, 1]), vec![2]);
    let selector = TournamentSelector::new(4, Optimize::Maximize);
    assert_eq!(selector.select_in_order(&scores, &vec![3, 0, 2, 1]), vec![3]);
}

#[test]
fn group_size_one_keeps_everybody() {
    let selector = TournamentSelector::new(1, Optimize::Minimize);
    let scores = vec![3, 1, 2];
    assert_eq!(selector.select_in_order(&scores, &vec![2, 0, 1]), vec![2, 0, 1]);
}

#[test]
fn empty_order_selects_nothing() {
    let selector = TournamentSelector::new(2, Optimize::Minimize);
    assert_eq!(selector.select_in_order(&vec![], &vec![]), Vec::<usize>::new());
}

#[test]
fn single_contestant_is_kept() {
    let selector = TournamentSelector::new(2, Optimize::Maximize);
    let mut rng = ChaCha8Rng::seed_from_u64(1);
    assert_eq!(selector.select(&vec![-4], &mut rng), vec![0]);
}

#[test]
fn selection_never_keeps_a_strictly_worst_contestant() {
    for seed in 0..20u64 {
        let mut rng = ChaCha8Rng::seed_from_u64(seed);
        let scores: Vec<i64> = (0..11).map(|i| ((i * 7 + seed as i64 * 3) % 11) - 5).collect();
        for k in 1..6usize {
            let selector = TournamentSelector::new(k, Optimize::Minimize);
            let chosen = selector.select(&scores, &mut rng);
            assert_eq!(chosen.len(), (scores.len() + k - 1) / k);
            assert!(chosen.len() <= scores.len());
            let mut seen = chosen.clone();
            seen.sort();
            seen.dedup();
            assert_eq!(seen.len(), chosen.len());
            for &c in &chosen {
                assert!(c < scores.len());
            }
            if k >= scores.len() {
                let best = *scores.iter().min().unwrap();
                assert_eq!(scores[chosen[0]], best);
            }
            if k >= 2 {
                // the single worst contestant can only survive alone in the last group
                let worst = *scores.iter().max().unwrap();
                let worst_idx = scores.iter().position(|&s| s == worst).unwrap();
                let kept_worst = chosen.iter().any(|&c| c == worst_idx);
                if kept_worst {
                    assert_eq!(scores.len() % k, 1);
                    assert_eq!(*chosen.last().unwrap(), worst_idx);
                }
            }
        }
    }
}

#[test]
fn shuffled_indices_is_a_permutation_and_not_the_identity() {
    let mut rng = ChaCha8Rng::seed_from_u64(7);
    let order = shuffled_indices(50, &mut rng);
    let identity: Vec<usize> = (0..50).collect();
    assert_ne!(order, identity);
    let mut sorted = order.clone();
    sorted.sort();
    assert_eq!(sorted, identity);
    assert_eq!(shuffled_indices(0, &mut rng), Vec::<usize>::new());
    assert_eq!(shuffled_indices(1, &mut rng), vec![0]);
}

#[test]
fn param_subset_is_a_distinct_sample_fixed_by_its_seed() {
    let a = param_subset(11, 306, 120);
    let b = param_subset(11, 306, 120);
    let c = param_subset(12, 306, 120);
    assert_eq!(a, b);
    assert_ne!(a, c);
    assert_eq!(a.len(), 120);
    let mut sorted = a.clone();
    sorted.sort();
    sorted.dedup();
    assert_eq!(sorted.len(), 120);
    assert!(a.iter().all(|&i| i < 306));
    assert_eq!(param_subset(3, 5, 120).len(), 5);
    assert_eq!(param_subset(3, 5, 0).len(), 0);
}

#[test]
fn draw_seeds_draws_one_seed_each() {
    let mut rng = ChaCha8Rng::seed_from_u64(3);
    let seeds = draw_seeds(6, &mut rng);
    assert_eq!(seeds.len(), 6);
    let mut rng2 = ChaCha8Rng::seed_from_u64(3);
    assert_eq!(draw_seeds(6, &mut rng2), seeds);
    let mut distinct = seeds.clone();
    distinct.sort();
    distinct.dedup();
    assert!(distinct.len() > 1);
}
