use crate::constants::MAX_PERMUTATIONS;
use crate::grid::{cell_colors, in_palette, occurs_before, Grid};
use crate::random::random_at_most;
use crate::transforms::RemapColors;
use crate::utils::union_sets;
use rand_chacha::ChaCha8Rng;
use std::collections::HashSet;
use vstd::arithmetic::div_mod::{lemma_fundamental_div_mod, lemma_multiply_divide_lt};
use vstd::prelude::*;

verus! {

broadcast use vstd::std_specs::hash::group_hash_axioms;

/// `n * (n - 1) * ... * (n - k + 1)`: the number of ways to arrange `k` out of `n` items.
pub open spec fn arrangements(n: nat, k: nat) -> nat
    decreases k,
{
    if k == 0 {
        1
    } else {
        arrangements(n, (k - 1) as nat) * ((n - (k - 1)) as nat)
    }
}

/// With `k <= n` no factor is zero, so the count is at least one.
pub proof fn lemma_arrangements_positive(n: nat, k: nat)
    requires
        k <= n,
    ensures
        arrangements(n, k) >= 1,
    decreases k,
{
    if k > 0 {
        lemma_arrangements_positive(n, (k - 1) as nat);
        assert(arrangements(n, (k - 1) as nat) * ((n - (k - 1)) as nat) >= 1) by (nonlinear_arith)
            requires
                arrangements(n, (k - 1) as nat) >= 1,
                (n - (k - 1)) as nat >= 1,
        ;
    }
}

/// Compute nPk = n * (n-1) * ... * (n-k+1) as u128, or the largest `u128` where
/// the count does not fit.
pub fn n_pk(n: usize, k: usize) -> (count: u128)
    requires
        k <= n,
    ensures
        count == (if arrangements(n as nat, k as nat) <= u128::MAX {
            arrangements(n as nat, k as nat)
        } else {
            u128::MAX as nat
        }),
{
    let mut acc: u128 = 1;
    let mut i: usize = 0;
    while i < k
        invariant
            i <= k <= n,
            acc == (if arrangements(n as nat, i as nat) <= u128::MAX {
                arrangements(n as nat, i as nat)
            } else {
                u128::MAX as nat
            }),
        decreases k - i,
    {
        let factor: u128 = (n - i) as u128;
        proof {
            lemma_arrangements_positive(n as nat, i as nat);
            let prev = arrangements(n as nat, i as nat);
            assert(arrangements(n as nat, (i + 1) as nat) == prev * ((n - i) as nat));
            if prev > u128::MAX {
                assert(prev * ((n - i) as nat) >= prev) by (nonlinear_arith)
                    requires
                        (n - i) as nat >= 1,
                        prev >= 1,
                ;
            }
            if acc == u128::MAX && prev <= u128::MAX {
                assert(prev * ((n - i) as nat) >= prev) by (nonlinear_arith)
                    requires
                        (n - i) as nat >= 1,
                        prev >= 1,
                ;
            }
        }
        acc =
        match acc.checked_mul(factor) {
            Some(product) => product,
            None => u128::MAX,
        };
        i += 1;
    }
    acc
}

/// The arrangement of `k` of the `avail` items that has number `rank`: the
/// item at `rank` modulo the number of items left comes first and leaves,
/// and the quotient picks among the rest in the same way.
pub open spec fn arrangement(rank: nat, avail: Seq<u8>, k: nat) -> Seq<u8>
    decreases k,
{
    if k == 0 || avail.len() == 0 {
        Seq::empty()
    } else {
        let idx = (rank % avail.len()) as int;
        seq![avail[idx]] + arrangement(rank / avail.len(), avail.remove(idx), (k - 1) as nat)
    }
}

/// Unrank a k-permutation (arrangement) of items without replacement using mixed radix
pub fn unrank_k_perm(rank: u128, items: &Vec<u8>, k: usize) -> (out: Vec<u8>)
    requires
        k <= items@.len(),
    ensures
        out@ == arrangement(rank as nat, items@, k as nat),
        out@.len() == k,
        forall|i: int| 0 <= i < out@.len() ==> items@.contains(#[trigger] out@[i]),
{
    let mut r: u128 = rank;
    let mut avail: Vec<u8> = Vec::new();
    let mut c: usize = 0;
    while c < items.len()
        invariant
            c <= items.len(),
            avail@ == items@.take(c as int),
        decreases items.len() - c,
    {
        avail.push(items[c]);
        assert(avail@ =~= items@.take(c as int + 1));
        c += 1;
    }
    assert(avail@ =~= items@);
    assert forall|a: int| 0 <= a < avail@.len() implies items@.contains(#[trigger] avail@[a]) by {
        assert(items@[a] == avail@[a]);
    }
    let mut out: Vec<u8> = Vec::new();
    let mut i: usize = 0;
    while i < k
        invariant
            i <= k <= items@.len(),
            avail@.len() == items@.len() - i,
            out@.len() == i,
            forall|a: int| 0 <= a < avail@.len() ==> items@.contains(#[trigger] avail@[a]),
            forall|a: int| 0 <= a < out@.len() ==> items@.contains(#[trigger] out@[a]),
            arrangement(rank as nat, items@, k as nat) == out@ + arrangement(
                r as nat,
                avail@,
                (k - i) as nat,
            ),
        decreases k - i,
    {
        let base: u128 = avail.len() as u128;
        let idx: usize = (r % base) as usize;
        let ghost before = avail@;
        let ghost rest = arrangement((r / base) as nat, before.remove(idx as int), (k - i - 1) as nat);
        assert(arrangement(r as nat, before, (k - i) as nat) == seq![before[idx as int]] + rest);
        r = r / base;
        let item: u8 = avail.remove(idx);
        let ghost out_before = out@;
        out.push(item);
        proof {
            assert(items@.contains(before[idx as int]));
            assert forall|a: int| 0 <= a < avail@.len() implies items@.contains(
                #[trigger] avail@[a],
            ) by {
                let aa = if a < idx {
                    a
                } else {
                    a + 1
                };
                assert(avail@[a] == before[aa]);
            }
            assert forall|a: int| 0 <= a < out@.len() implies items@.contains(#[trigger] out@[a]) by {
                if a < out_before.len() {
                    assert(out@[a] == out_before[a]);
                }
            }
        }
        assert(out@ + rest =~= (out@.drop_last() + seq![before[idx as int]]) + rest);
        assert((out@.drop_last() + seq![before[idx as int]]) + rest =~= out@.drop_last() + (
        seq![before[idx as int]] + rest));
        i += 1;
    }
    assert(arrangement(r as nat, avail@, 0) =~= Seq::<u8>::empty());
    assert(out@ + Seq::<u8>::empty() =~= out@);
    out
}

/// The members of `set` other than zero, in ascending order.
pub fn colors_sorted_nonzero(set: &HashSet<u8>) -> (colors: Vec<u8>)
    ensures
        forall|c: u8| colors@.contains(c) <==> set@.contains(c) && c != 0,
        forall|i: int, j: int| 0 <= i < j < colors@.len() ==> colors@[i] < colors@[j],
{
    let mut colors: Vec<u8> = Vec::new();
    let mut c: u8 = 1;
    loop
        invariant_except_break
            1 <= c,
            forall|d: u8| colors@.contains(d) <==> set@.contains(d) && d != 0 && d < c,
            forall|i: int, j: int| 0 <= i < j < colors@.len() ==> colors@[i] < colors@[j],
            forall|i: int| 0 <= i < colors@.len() ==> colors@[i] < c,
        ensures
            forall|d: u8| colors@.contains(d) <==> set@.contains(d) && d != 0,
            forall|i: int, j: int| 0 <= i < j < colors@.len() ==> colors@[i] < colors@[j],
        decreases 255 - c,
    {
        if set.contains(&c) {
            let ghost before = colors@;
            colors.push(c);
            proof {
                assert forall|d: u8| colors@.contains(d) implies set@.contains(d) && d != 0 && d
                    <= c by {
                    let i = choose|i: int| 0 <= i < colors@.len() && colors@[i] == d;
                    if i < before.len() {
                        assert(before[i] == d);
                        assert(before.contains(d));
                    }
                }
                assert forall|d: u8| set@.contains(d) && d != 0 && d <= c implies colors@.contains(
                    d,
                ) by {
                    if d == c {
                        assert(colors@[colors@.len() - 1] == d);
                    } else {
                        assert(before.contains(d));
                        let i = choose|i: int| 0 <= i < before.len() && before[i] == d;
                        assert(colors@[i] == d);
                    }
                }
            }
        }
        if c == 255 {
            break;
        }
        c += 1;
    }
    colors
}

/// Whether `colors` holds a color that `seen` lacks.
pub fn has_unseen_color(colors: &HashSet<u8>, seen: &HashSet<u8>) -> (unseen: bool)
    ensures
        unseen == !colors@.subset_of(seen@),
{
    let mut c: u8 = 0;
    loop
        invariant_except_break
            forall|d: u8| d < c && colors@.contains(d) ==> seen@.contains(d),
        ensures
            forall|d: u8| colors@.contains(d) ==> seen@.contains(d),
        decreases 255 - c,
    {
        if colors.contains(&c) && !seen.contains(&c) {
            return true;
        }
        if c == 255 {
            break;
        }
        c += 1;
    }
    false
}

/// Floyd's algorithm to sample unique indices from `[0, n_total)` without
/// replacement: `m` of them, or all `n_total` where there are fewer than `m`.
///
/// Whatever is drawn, the result holds that many indices, each below
/// `n_total`, none twice.
pub fn floyd_unique_indices(n_total: u128, m: usize, rng: &mut ChaCha8Rng) -> (out: Vec<u128>)
    ensures
        out@.len() == (if n_total < m { n_total as int } else { m as int }),
        forall|i: int| 0 <= i < out@.len() ==> #[trigger] out@[i] < n_total,
        out@.no_duplicates(),
{
    let m: usize = if n_total < m as u128 { n_total as usize } else { m };
    let mut chosen: HashSet<u128> = HashSet::new();
    let mut out: Vec<u128> = Vec::new();
    let start: u128 = n_total - m as u128;
    let mut j: u128 = start;
    while j < n_total
        invariant
            start <= j <= n_total,
            start == n_total - m,
            out@.len() == j - start,
            forall|x: u128| chosen@.contains(x) <==> out@.contains(x),
            forall|i: int| 0 <= i < out@.len() ==> #[trigger] out@[i] < j,
            out@.no_duplicates(),
        decreases n_total - j,
    {
        let t: u128 = random_at_most(rng, j);
        let x: u128 = if chosen.contains(&t) { j } else { t };
        let ghost before = out@;
        proof {
            if before.contains(x) {
                let i = choose|i: int| 0 <= i < before.len() && before[i] == x;
                assert(before[i] < j);
            }
        }
        chosen.insert(x);
        out.push(x);
        proof {
            assert forall|y: u128| chosen@.contains(y) implies out@.contains(y) by {
                if y == x {
                    assert(out@[out@.len() - 1] == x);
                } else {
                    assert(before.contains(y));
                    let i = choose|i: int| 0 <= i < before.len() && before[i] == y;
                    assert(out@[i] == y);
                }
            }
            assert forall|y: u128| out@.contains(y) implies chosen@.contains(y) by {
                let i = choose|i: int| 0 <= i < out@.len() && out@[i] == y;
                if i < before.len() {
                    assert(before[i] == y);
                    assert(before.contains(y));
                }
            }
            assert forall|a: int, b: int|
                0 <= a < out@.len() && 0 <= b < out@.len() && a != b implies out@[a]
                != out@[b] by {
                if a < before.len() && b < before.len() {
                    assert(before[a] != before[b]);
                } else if a < before.len() {
                    assert(before.contains(before[a]));
                } else {
                    assert(before.contains(before[b]));
                }
            }
        }
        j += 1;
    }
    out
}

/// The table after the first `upto` of the pairs `from[i] -> to[i]` are
/// entered one after another into the identity recoloring.
pub open spec fn forward_after(from: Seq<u8>, to: Seq<u8>, upto: nat) -> Seq<u8>
    decreases upto,
{
    if upto == 0 {
        crate::transforms::identity_table()
    } else {
        forward_after(from, to, (upto - 1) as nat).update(
            from[upto - 1] as int,
            to[upto - 1],
        )
    }
}

/// The undoing table after the first `upto` pairs are entered.
pub open spec fn backward_after(from: Seq<u8>, to: Seq<u8>, upto: nat) -> Seq<u8>
    decreases upto,
{
    if upto == 0 {
        crate::transforms::identity_table()
    } else {
        backward_after(from, to, (upto - 1) as nat).update(
            to[upto - 1] as int,
            from[upto - 1],
        )
    }
}

/// The recoloring that sends each of `grid_cols` to the color at the same
/// place in `perm`; a later pair overrides an earlier one.
pub fn remap_for(grid_cols: &Vec<u8>, perm: &Vec<u8>) -> (remap: RemapColors)
    requires
        forall|i: int| 0 <= i < grid_cols@.len() ==> #[trigger] grid_cols@[i] < 10,
        forall|i: int| 0 <= i < perm@.len() ==> #[trigger] perm@[i] < 10,
    ensures
        remap.wf(),
        remap.forward() == forward_after(
            grid_cols@,
            perm@,
            if grid_cols@.len() < perm@.len() {
                grid_cols@.len()
            } else {
                perm@.len()
            },
        ),
        remap.backward() == backward_after(
            grid_cols@,
            perm@,
            if grid_cols@.len() < perm@.len() {
                grid_cols@.len()
            } else {
                perm@.len()
            },
        ),
{
    let pairs: usize = if grid_cols.len() < perm.len() { grid_cols.len() } else { perm.len() };
    let mut remap = RemapColors::new();
    let mut i: usize = 0;
    while i < pairs
        invariant
            i <= pairs,
            pairs <= grid_cols@.len(),
            pairs <= perm@.len(),
            forall|i: int| 0 <= i < grid_cols@.len() ==> #[trigger] grid_cols@[i] < 10,
            forall|i: int| 0 <= i < perm@.len() ==> #[trigger] perm@[i] < 10,
            remap.wf(),
            remap.forward() == forward_after(grid_cols@, perm@, i as nat),
            remap.backward() == backward_after(grid_cols@, perm@, i as nat),
        decreases pairs - i,
    {
        remap.map(grid_cols[i], perm[i]);
        i += 1;
    }
    remap
}

/// The place of the largest count; among equal largest counts the last one.
pub fn majority_index(counts: &Vec<usize>) -> (best: usize)
    requires
        counts@.len() > 0,
    ensures
        best < counts@.len(),
        forall|i: int| 0 <= i < counts@.len() ==> counts@[i] <= counts@[best as int],
        forall|i: int| best < i < counts@.len() ==> counts@[i] < counts@[best as int],
{
    let mut best: usize = 0;
    let mut i: usize = 1;
    while i < counts.len()
        invariant
            1 <= i <= counts@.len(),
            best < i,
            forall|a: int| 0 <= a < i ==> counts@[a] <= counts@[best as int],
            forall|a: int| best < a < i ==> counts@[a] < counts@[best as int],
        decreases counts.len() - i,
    {
        if counts[i] >= counts[best] {
            best = i;
        }
        i += 1;
    }
    best
}

/// `list` holds the members of `set` other than zero, in ascending order.
pub open spec fn is_sorted_nonzero_of(list: Seq<u8>, set: Set<u8>) -> bool {
    &&& forall|c: u8| list.contains(c) <==> set.contains(c) && c != 0
    &&& forall|i: int, j: int| 0 <= i < j < list.len() ==> list[i] < list[j]
}

/// The colors that occur in at least one of the grids.
pub open spec fn seen_colors(grids: Seq<&Grid>) -> Set<u8> {
    Set::new(
        |c: u8| exists|i: int| 0 <= i < grids.len() && cell_colors((#[trigger] grids[i])@).contains(c),
    )
}

/// A list in strictly ascending order has as many items as its set has members.
pub proof fn lemma_sorted_nonzero_len(list: Seq<u8>, set: Set<u8>)
    requires
        is_sorted_nonzero_of(list, set),
    ensures
        list.no_duplicates(),
        set.remove(0).finite(),
        list.len() == set.remove(0).len(),
{
    assert(list.no_duplicates()) by {
        assert forall|i: int, j: int|
            0 <= i < list.len() && 0 <= j < list.len() && i != j implies list[i] != list[j] by {
            if i < j {
                assert(list[i] < list[j]);
            } else {
                assert(list[j] < list[i]);
            }
        }
    }
    list.unique_seq_to_set();
    assert(list.to_set() =~= set.remove(0)) by {
        assert forall|c: u8| list.to_set().contains(c) <==> set.remove(0).contains(c) by {
            assert(list.to_set().contains(c) <==> list.contains(c));
        }
    }
}

/// In a palette matrix every color that occurs is one of the ten colors.
pub proof fn lemma_colors_in_palette(m: Seq<Seq<u8>>, c: u8)
    requires
        in_palette(m),
        cell_colors(m).contains(c),
    ensures
        c < 10,
{
    assert(occurs_before(m, m.len() as int, 0, c));
    let (yy, xx) = choose|yy: int, xx: int|
        0 <= yy < m.len() && 0 <= xx < m[yy].len() && (yy < m.len() || (yy == m.len() && xx < 0))
            && #[trigger] m[yy][xx] == c;
    assert(m[yy][xx] < 10);
}

/// Decides whether recoloring can help with `grid`, and with which colors.
///
/// `None` where every color of the grid occurs in a train input, or where
/// the grid has more colors other than zero than the train inputs have.
/// Otherwise the colors other than zero of the grid and of the train inputs,
/// each in ascending order.
pub fn color_lists(grid: &Grid, train_inputs: &Vec<&Grid>) -> (lists: Option<(Vec<u8>, Vec<u8>)>)
    requires
        grid.wf(),
        forall|i: int| 0 <= i < train_inputs@.len() ==> (#[trigger] train_inputs@[i]).wf(),
    ensures
        lists is None <==> (cell_colors(grid@).subset_of(seen_colors(train_inputs@)) || cell_colors(
            grid@,
        ).remove(0).len() > seen_colors(train_inputs@).remove(0).len()),
        lists is Some ==> is_sorted_nonzero_of(lists->Some_0.0@, cell_colors(grid@))
            && is_sorted_nonzero_of(lists->Some_0.1@, seen_colors(train_inputs@))
            && lists->Some_0.0@.len() <= lists->Some_0.1@.len(),
        lists is Some ==> forall|i: int|
            0 <= i < lists->Some_0.0@.len() ==> #[trigger] lists->Some_0.0@[i] < 10,
        lists is Some ==> forall|i: int|
            0 <= i < lists->Some_0.1@.len() ==> #[trigger] lists->Some_0.1@[i] < 10,
{
    let mut sets: Vec<&HashSet<u8>> = Vec::new();
    let mut i: usize = 0;
    while i < train_inputs.len()
        invariant
            i <= train_inputs.len(),
            forall|j: int| 0 <= j < train_inputs@.len() ==> (#[trigger] train_inputs@[j]).wf(),
            sets@.len() == i,
            forall|j: int| 0 <= j < i ==> (#[trigger] sets@[j])@ == cell_colors(train_inputs@[j]@),
        decreases train_inputs.len() - i,
    {
        let input: &Grid = train_inputs[i];
        sets.push(input.colors());
        i += 1;
    }
    let ti_col_set = union_sets(&sets);
    let ghost seen = seen_colors(train_inputs@);
    proof {
        assert forall|c: u8| ti_col_set@.contains(c) <==> seen.contains(c) by {
            if ti_col_set@.contains(c) {
                let j = choose|j: int| 0 <= j < sets@.len() && (#[trigger] sets@[j])@.contains(c);
                assert(cell_colors(train_inputs@[j]@).contains(c));
            }
            if seen.contains(c) {
                let j = choose|j: int|
                    0 <= j < train_inputs@.len() && cell_colors((#[trigger] train_inputs@[j])@).contains(
                        c,
                    );
                assert(sets@[j]@.contains(c));
            }
        }
        assert(ti_col_set@ =~= seen);
    }
    let grid_col_set = grid.colors();
    let unseen: bool = has_unseen_color(grid_col_set, &ti_col_set);
    let ti_cols = colors_sorted_nonzero(&ti_col_set);
    let grid_cols = colors_sorted_nonzero(grid_col_set);
    proof {
        lemma_sorted_nonzero_len(ti_cols@, seen);
        lemma_sorted_nonzero_len(grid_cols@, cell_colors(grid@));
        assert forall|a: int| 0 <= a < grid_cols@.len() implies #[trigger] grid_cols@[a] < 10 by {
            assert(grid_cols@.contains(grid_cols@[a]));
            lemma_colors_in_palette(grid@, grid_cols@[a]);
        }
        assert forall|a: int| 0 <= a < ti_cols@.len() implies #[trigger] ti_cols@[a] < 10 by {
            let c = ti_cols@[a];
            assert(ti_cols@.contains(c));
            assert(seen.contains(c));
            let j = choose|j: int|
                0 <= j < train_inputs@.len() && cell_colors((#[trigger] train_inputs@[j])@).contains(c);
            lemma_colors_in_palette(train_inputs@[j]@, c);
        }
    }
    if !unseen {
        // No unseen colors.
        return None;
    }
    if grid_cols.len() > ti_cols.len() {
        // Grid has more colors than all input colors. Can't remap.
        return None;
    }
    Some((grid_cols, ti_cols))
}

/// The numbers of the recolorings that are tried: unique samples of the
/// arrangements of `k` out of `n` colors, at most `MAX_PERMUTATIONS` and at
/// most `max_fun_evals` of them, and all arrangements where there are fewer.
///
/// Whatever is drawn, the numbers differ from each other and each names an
/// arrangement.
pub fn sample_ranks(n: usize, k: usize, max_fun_evals: usize, rng: &mut ChaCha8Rng) -> (ranks: Vec<
    u128,
>)
    requires
        k <= n,
    ensures
        ranks@.len() <= MAX_PERMUTATIONS,
        ranks@.len() <= max_fun_evals,
        ranks@.len() <= arrangements(n as nat, k as nat),
        ranks@.len() == MAX_PERMUTATIONS || ranks@.len() == max_fun_evals || ranks@.len()
            == arrangements(n as nat, k as nat),
        forall|i: int|
            0 <= i < ranks@.len() ==> #[trigger] ranks@[i] < arrangements(n as nat, k as nat),
        ranks@.no_duplicates(),
{
    let total: u128 = n_pk(n, k);
    let cap: usize = if MAX_PERMUTATIONS < max_fun_evals { MAX_PERMUTATIONS } else { max_fun_evals };
    floyd_unique_indices(total, cap, rng)
}

/// The recoloring with number `rank`: each of `grid_cols` is sent to the
/// color at the same place in the arrangement of the colors `ti_cols` that
/// has this number.
pub fn remap_for_rank(rank: u128, grid_cols: &Vec<u8>, ti_cols: &Vec<u8>) -> (remap: RemapColors)
    requires
        grid_cols@.len() <= ti_cols@.len(),
        forall|i: int| 0 <= i < grid_cols@.len() ==> #[trigger] grid_cols@[i] < 10,
        forall|i: int| 0 <= i < ti_cols@.len() ==> #[trigger] ti_cols@[i] < 10,
    ensures
        remap.wf(),
        remap.forward() == forward_after(
            grid_cols@,
            arrangement(rank as nat, ti_cols@, grid_cols@.len()),
            grid_cols@.len(),
        ),
        remap.backward() == backward_after(
            grid_cols@,
            arrangement(rank as nat, ti_cols@, grid_cols@.len()),
            grid_cols@.len(),
        ),
{
    let perm = unrank_k_perm(rank, ti_cols, grid_cols.len());
    proof {
        assert forall|i: int| 0 <= i < perm@.len() implies #[trigger] perm@[i] < 10 by {
            assert(ti_cols@.contains(perm@[i]));
            let j = choose|j: int| 0 <= j < ti_cols@.len() && ti_cols@[j] == perm@[i];
            assert(ti_cols@[j] < 10);
        }
    }
    remap_for(grid_cols, &perm)
}

/// Arranging `k` out of `n` items is choosing the first among `n` and
/// arranging `k - 1` out of the `n - 1` that are left.
pub proof fn lemma_arrangements_first(n: nat, k: nat)
    requires
        1 <= k <= n,
    ensures
        arrangements(n, k) == n * arrangements((n - 1) as nat, (k - 1) as nat),
    decreases k,
{
    if k == 1 {
        assert(arrangements(n, 0) == 1);
        assert(arrangements((n - 1) as nat, 0) == 1);
        assert(arrangements(n, 1) == arrangements(n, 0) * ((n - 0) as nat));
    } else {
        lemma_arrangements_first(n, (k - 1) as nat);
        let inner = arrangements((n - 1) as nat, (k - 2) as nat);
        let last = (n - (k - 1)) as nat;
        assert(arrangements(n, k) == arrangements(n, (k - 1) as nat) * last);
        assert(arrangements((n - 1) as nat, (k - 1) as nat) == inner * (((n - 1) - (k - 2)) as nat));
        assert((n * inner) * last == n * (inner * last)) by (nonlinear_arith);
    }
}

/// Different numbers below the count of arrangements name different
/// arrangements of items that differ from each other.
pub proof fn lemma_arrangement_injective(first: nat, second: nat, avail: Seq<u8>, k: nat)
    requires
        avail.no_duplicates(),
        k <= avail.len(),
        first < arrangements(avail.len(), k),
        second < arrangements(avail.len(), k),
        arrangement(first, avail, k) == arrangement(second, avail, k),
    ensures
        first == second,
    decreases k,
{
    if k == 0 {
        assert(arrangements(avail.len(), 0) == 1);
    } else {
        let n = avail.len();
        let i1 = (first % n) as int;
        let i2 = (second % n) as int;
        let rest1 = arrangement(first / n, avail.remove(i1), (k - 1) as nat);
        let rest2 = arrangement(second / n, avail.remove(i2), (k - 1) as nat);
        let a1 = arrangement(first, avail, k);
        let a2 = arrangement(second, avail, k);
        assert(a1 == seq![avail[i1]] + rest1);
        assert(a2 == seq![avail[i2]] + rest2);
        assert(a1[0] == avail[i1]);
        assert(a2[0] == avail[i2]);
        assert(i1 == i2);
        assert(rest1 =~= a1.subrange(1, a1.len() as int));
        assert(rest2 =~= a2.subrange(1, a2.len() as int));
        let less = avail.remove(i1);
        assert(less.no_duplicates()) by {
            assert forall|x: int, y: int|
                0 <= x < less.len() && 0 <= y < less.len() && x != y implies less[x]
                != less[y] by {
                let sx = if x < i1 {
                    x
                } else {
                    x + 1
                };
                let sy = if y < i1 {
                    y
                } else {
                    y + 1
                };
                assert(less[x] == avail[sx]);
                assert(less[y] == avail[sy]);
            }
        }
        lemma_arrangements_first(n, k);
        let below = arrangements((n - 1) as nat, (k - 1) as nat);
        lemma_multiply_divide_lt(first as int, n as int, below as int);
        lemma_multiply_divide_lt(second as int, n as int, below as int);
        lemma_arrangement_injective(first / n, second / n, less, (k - 1) as nat);
        lemma_fundamental_div_mod(first as int, n as int);
        lemma_fundamental_div_mod(second as int, n as int);
    }
}

} // verus!
