use enca::augment::{
    color_lists, colors_sorted_nonzero, floyd_unique_indices, has_unseen_color, majority_index,
    n_pk, remap_for, remap_for_rank, sample_ranks, unrank_k_perm,
};
use enca::grid::Grid;
use rand::SeedableRng;
use rand_chacha::ChaCha8Rng;
use std::collections::HashSet;

#[test]
fn n_pk_counts_arrangements() {
    assert_eq!(n_pk(5, 0), 1);
    assert_eq!(n_pk(0, 0), 1);
    assert_eq!(n_pk(5, 1), 5);
    assert_eq!(n_pk(5, 2), 20);
    assert_eq!(n_pk(5, 5), 120);
    assert_eq!(n_pk(9, 3), 504);
    assert_eq!(n_pk(10, 10), 3_628_800);
}

#[test]
fn n_pk_saturates() {
    assert_eq!(n_pk(34, 34), 295232799039604140847618609643520000000);
    assert_eq!(n_pk(35, 35), u128::MAX);
    assert_eq!(n_pk(40, 40), u128::MAX);
    assert_eq!(n_pk(1000, 900), u128::MAX);
}

#[test]
fn unrank_k_perm_reads_mixed_radix() {
    let items = vec![1, 2, 3];
    assert_eq!(unrank_k_perm(0, &items, 2), vec![1, 2]);
    assert_eq!(unrank_k_perm(1, &items, 2), vec![2, 1]);
    assert_eq!(unrank_k_perm(2, &items, 2), vec![3, 1]);
    assert_eq!(unrank_k_perm(3, &items, 2), vec![1, 3]);
    assert_eq!(unrank_k_perm(4, &items, 2), vec![2, 3]);
    assert_eq!(unrank_k_perm(5, &items, 2), vec![3, 2]);
    assert_eq!(unrank_k_perm(6, &items, 2), vec![1, 2]);
    assert_eq!(unrank_k_perm(5, &items, 0), Vec::<u8>::new());
    assert_eq!(unrank_k_perm(5, &items, 3), vec![3, 2, 1]);
}

#[test]
fn unrank_k_perm_gives_each_arrangement_once() {
    let items = vec![2, 4, 6, 8];
    let mut seen = HashSet::new();
    for rank in 0..n_pk(4, 3) {
        let perm = unrank_k_perm(rank, &items, 3);
        assert_eq!(perm.len(), 3);
        let distinct: HashSet<u8> = perm.iter().copied().collect();
        assert_eq!(distinct.len(), 3);
        assert!(perm.iter().all(|c| items.contains(c)));
        assert!(seen.insert(perm));
    }
    assert_eq!(seen.len(), 24);
}

#[test]
fn colors_sorted_nonzero_sorts_and_drops_zero() {
    let set: HashSet<u8> = [7, 0, 3, 9, 1].into_iter().collect();
    assert_eq!(colors_sorted_nonzero(&set), vec![1, 3, 7, 9]);
    let only_zero: HashSet<u8> = [0].into_iter().collect();
    assert_eq!(colors_sorted_nonzero(&only_zero), Vec::<u8>::new());
    let high: HashSet<u8> = [255, 254].into_iter().collect();
    assert_eq!(colors_sorted_nonzero(&high), vec![254, 255]);
}

#[test]
fn has_unseen_color_tests_the_subset() {
    let seen: HashSet<u8> = [0, 1, 2].into_iter().collect();
    let inside: HashSet<u8> = [0, 2].into_iter().collect();
    let outside: HashSet<u8> = [0, 3].into_iter().collect();
    let top: HashSet<u8> = [255].into_iter().collect();
    assert!(!has_unseen_color(&inside, &seen));
    assert!(has_unseen_color(&outside, &seen));
    assert!(has_unseen_color(&top, &seen));
    assert!(!has_unseen_color(&HashSet::new(), &seen));
}

#[test]
fn floyd_samples_without_replacement() {
    for seed in 0..10u64 {
        let mut rng = ChaCha8Rng::seed_from_u64(seed);
        let out = floyd_unique_indices(10, 4, &mut rng);
        assert_eq!(out.len(), 4);
        let distinct: HashSet<u128> = out.iter().copied().collect();
        assert_eq!(distinct.len(), 4);
        assert!(out.iter().all(|&x| x < 10));
    }
    let mut rng = ChaCha8Rng::seed_from_u64(1);
    let mut all = floyd_unique_indices(3, 10, &mut rng);
    all.sort();
    assert_eq!(all, vec![0, 1, 2]);
    assert_eq!(floyd_unique_indices(0, 10, &mut rng), Vec::<u128>::new());
    assert_eq!(floyd_unique_indices(10, 0, &mut rng), Vec::<u128>::new());
}

#[test]
fn floyd_draws_from_the_generator() {
    let mut a = ChaCha8Rng::seed_from_u64(1);
    let mut differs = false;
    let first = floyd_unique_indices(1_000_000, 5, &mut a);
    for seed in 2..6u64 {
        let mut b = ChaCha8Rng::seed_from_u64(seed);
        if floyd_unique_indices(1_000_000, 5, &mut b) != first {
            differs = true;
        }
    }
    assert!(differs);
    assert_ne!(first, vec![999_995, 999_996, 999_997, 999_998, 999_999]);
}

#[test]
fn remap_for_enters_the_pairs() {
    let remap = remap_for(&vec![1, 2], &vec![5, 6]);
    let mut g = Grid::from_vec(vec![vec![0, 1, 2, 3]]);
    remap.apply(&mut g);
    assert_eq!(g.data(), &vec![vec![0, 5, 6, 3]]);
    remap.revert(&mut g);
    assert_eq!(g.data(), &vec![vec![0, 1, 2, 3]]);
}

#[test]
fn remap_for_rank_uses_the_arrangement() {
    // rank 5 of [1, 2, 3] taken two at a time is [3, 2]
    let remap = remap_for_rank(5, &vec![4, 7], &vec![1, 2, 3]);
    let mut g = Grid::from_vec(vec![vec![4, 7, 0, 1]]);
    remap.apply(&mut g);
    assert_eq!(g.data(), &vec![vec![3, 2, 0, 1]]);
}

#[test]
fn majority_index_takes_the_last_largest() {
    assert_eq!(majority_index(&vec![1]), 0);
    assert_eq!(majority_index(&vec![1, 3, 3, 2]), 2);
    assert_eq!(majority_index(&vec![4, 3, 3, 2]), 0);
    assert_eq!(majority_index(&vec![2, 2, 2]), 2);
}

#[test]
fn color_lists_asks_for_unseen_colors() {
    let a = Grid::from_vec(vec![vec![0, 1], vec![2, 3]]);
    let b = Grid::from_vec(vec![vec![0, 3], vec![5, 5]]);
    let train = vec![&a, &b];
    let seen_only = Grid::from_vec(vec![vec![5, 1, 0]]);
    assert_eq!(color_lists(&seen_only, &train), None);
    let unseen = Grid::from_vec(vec![vec![7, 1, 0, 9]]);
    assert_eq!(color_lists(&unseen, &train), Some((vec![1, 7, 9], vec![1, 2, 3, 5])));
    let too_many = Grid::from_vec(vec![vec![1, 2, 3, 4, 6, 7]]);
    assert_eq!(color_lists(&too_many, &train), None);
    let no_train: Vec<&Grid> = vec![];
    assert_eq!(color_lists(&unseen, &no_train), None);
}

#[test]
fn sample_ranks_is_capped() {
    let mut rng = ChaCha8Rng::seed_from_u64(5);
    let ranks = sample_ranks(4, 2, 500, &mut rng);
    let mut sorted = ranks.clone();
    sorted.sort();
    assert_eq!(sorted, (0..12).collect::<Vec<u128>>());
    let ranks = sample_ranks(9, 5, 500, &mut rng);
    assert_eq!(ranks.len(), 500);
    let ranks = sample_ranks(9, 5, 5000, &mut rng);
    assert_eq!(ranks.len(), 1000);
    let distinct: HashSet<u128> = ranks.iter().copied().collect();
    assert_eq!(distinct.len(), 1000);
    assert!(ranks.iter().all(|&r| r < 15120));
    assert_eq!(sample_ranks(9, 5, 0, &mut rng).len(), 0);
}
