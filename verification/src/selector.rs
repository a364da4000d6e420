use crate::random::{is_permutation, shuffled_indices};
use rand_chacha::ChaCha8Rng;
use vstd::prelude::*;

verus! {

/// Whether higher or lower scores are better.
#[derive(Clone, Copy, Debug, PartialEq, Eq, Structural)]
pub enum Optimize {
    Maximize,
    Minimize,
}

impl Optimize {
    /// Score `a` is strictly better than score `b`.
    pub open spec fn prefers(self, a: i64, b: i64) -> bool {
        match self {
            Optimize::Maximize => a > b,
            Optimize::Minimize => a < b,
        }
    }

    fn better(self, a: i64, b: i64) -> (yes: bool)
        ensures
            yes == self.prefers(a, b),
    {
        match self {
            Optimize::Maximize => a > b,
            Optimize::Minimize => a < b,
        }
    }
}

/// Position `p` holds the winner among positions `lo..hi` of `order`: no
/// contestant there has a strictly better score, and every contestant at an
/// earlier position has a strictly worse one.
pub open spec fn is_winner(
    scores: Seq<i64>,
    order: Seq<usize>,
    mode: Optimize,
    lo: int,
    hi: int,
    p: int,
) -> bool {
    &&& lo <= p < hi
    &&& forall|q: int|
        lo <= q < hi ==> !mode.prefers(scores[#[trigger] order[q] as int], scores[order[p] as int])
    &&& forall|q: int|
        lo <= q < p ==> mode.prefers(scores[order[p] as int], scores[#[trigger] order[q] as int])
}

/// Where group `g` ends among `n` positions laid out in groups of `k`.
pub open spec fn group_end(g: int, k: int, n: int) -> int {
    if g * k + k < n {
        g * k + k
    } else {
        n
    }
}

/// Contestant `who` is the winner of group `g`, which is made of the
/// positions `g * k` up to, but not including, `g * k + k` of `order`, cut off
/// at the end of `order`.
pub open spec fn wins_group(
    scores: Seq<i64>,
    order: Seq<usize>,
    mode: Optimize,
    k: int,
    g: int,
    who: usize,
) -> bool {
    exists|p: int|
        #[trigger] is_winner(
            scores,
            order,
            mode,
            g * k,
            group_end(g, k as int, order.len() as int),
            p,
        ) && who == order[p]
}

/// `chosen` holds, group by group, the winners of the tournaments that `order`
/// lays out. In particular no chosen contestant has a strictly worse score
/// than any other contestant of its own group.
pub open spec fn is_selection(
    scores: Seq<i64>,
    order: Seq<usize>,
    mode: Optimize,
    k: int,
    chosen: Seq<usize>,
) -> bool {
    &&& chosen.len() * k >= order.len()
    &&& chosen.len() * k < order.len() + k
    &&& forall|g: int|
        0 <= g < chosen.len() ==> wins_group(scores, order, mode, k, g, #[trigger] chosen[g])
}

/// Tournament selection without replacement (global partition into tournaments).
#[derive(Clone, Copy, Debug)]
pub struct TournamentSelector {
    k: usize,
    mode: Optimize,
}

impl TournamentSelector {
    /// Tournament size.
    pub closed spec fn size(&self) -> usize {
        self.k
    }

    /// Direction of the contest.
    pub closed spec fn mode(&self) -> Optimize {
        self.mode
    }

    /// Tournament size k must be >= 1.
    pub fn new(k: usize, mode: Optimize) -> (selector: Self)
        requires
            k >= 1,
        ensures
            selector.size() == k,
            selector.mode() == mode,
    {
        Self { k, mode }
    }

    /// The winners of the tournaments that `order` lays out, as indices into
    /// `scores`, group by group. Among equal best scores of a group the one
    /// that comes first in `order` wins.
    pub fn select_in_order(&self, scores: &Vec<i64>, order: &Vec<usize>) -> (chosen: Vec<usize>)
        requires
            self.size() >= 1,
            is_permutation(order@, scores@.len()),
        ensures
            is_selection(scores@, order@, self.mode(), self.size() as int, chosen@),
            chosen@.len() <= scores@.len(),
            forall|g: int| 0 <= g < chosen@.len() ==> #[trigger] chosen@[g] < scores@.len(),
            chosen@.no_duplicates(),
    {
        let n: usize = order.len();
        let k: usize = self.k;
        let mut chosen: Vec<usize> = Vec::new();
        let mut lo: usize = 0;
        let ghost mut at: Seq<int> = Seq::empty();
        assert(chosen@.len() * k == 0) by (nonlinear_arith)
            requires
                chosen@.len() == 0,
        ;
        while lo < n
            invariant
                k == self.size(),
                k >= 1,
                n == order@.len(),
                is_permutation(order@, scores@.len()),
                lo == chosen@.len() * k || (lo == n && chosen@.len() * k >= n),
                lo <= n,
                chosen@.len() <= lo,
                chosen@.len() > 0 ==> (chosen@.len() - 1) * k < n,
                at.len() == chosen@.len(),
                forall|g: int| 0 <= g < at.len() ==> 0 <= #[trigger] at[g] < lo,
                forall|g: int, h: int| 0 <= g < h < at.len() ==> at[g] < at[h],
                forall|g: int| 0 <= g < chosen@.len() ==> #[trigger] chosen@[g] == order@[at[g]],
                forall|g: int|
                    0 <= g < chosen@.len() ==> is_winner(
                        scores@,
                        order@,
                        self.mode(),
                        g * k,
                        group_end(g, k as int, n as int),
                        #[trigger] at[g],
                    ),
            decreases n - lo,
        {
            let hi: usize = if n - lo < k { n } else { lo + k };
            let ghost g = chosen@.len() as int;
            assert(lo == g * k);
            assert((g + 1) * k == g * k + k) by (nonlinear_arith);
            let mut best_pos: usize = lo;
            let mut best_idx: usize = order[lo];
            let mut best_score: i64 = scores[best_idx];
            let mut q: usize = lo + 1;
            while q < hi
                invariant
                    lo < q <= hi,
                    hi <= n,
                    n == order@.len(),
                    is_permutation(order@, scores@.len()),
                    lo <= best_pos < q,
                    best_idx == order@[best_pos as int],
                    best_score == scores@[best_idx as int],
                    is_winner(scores@, order@, self.mode(), lo as int, q as int, best_pos as int),
                decreases hi - q,
            {
                let idx: usize = order[q];
                let score: i64 = scores[idx];
                if self.mode.better(score, best_score) {
                    best_pos = q;
                    best_idx = idx;
                    best_score = score;
                }
                q += 1;
            }
            let ghost before = chosen@;
            let ghost old_at = at;
            chosen.push(best_idx);
            proof {
                at = at.push(best_pos as int);
                assert forall|h: int| 0 <= h < chosen@.len() implies is_winner(
                    scores@,
                    order@,
                    self.mode(),
                    h * k,
                    group_end(h, k as int, n as int),
                    #[trigger] at[h],
                ) by {
                    if h < g {
                        assert(chosen@[h] == before[h]);
                        assert(at[h] == old_at[h]);
                    } else {
                        assert(h * k == lo);
                        assert(at[h] == best_pos);
                    }
                }
            }
            lo = hi;
        }
        proof {
            let len = chosen@.len() as int;
            if len > 0 {
                assert((len - 1) * k + k == len * k) by (nonlinear_arith);
            }
            assert forall|g: int, h: int|
                0 <= g < chosen@.len() && 0 <= h < chosen@.len() && g != h implies chosen@[g]
                != chosen@[h] by {
                assert(chosen@[g] == order@[at[g]]);
                assert(chosen@[h] == order@[at[h]]);
                if g < h {
                    assert(at[g] < at[h]);
                } else {
                    assert(at[h] < at[g]);
                }
            }
            assert forall|g: int| 0 <= g < chosen@.len() implies wins_group(
                scores@,
                order@,
                self.mode(),
                k as int,
                g,
                #[trigger] chosen@[g],
            ) by {
                assert(chosen@[g] == order@[at[g]]);
                assert(is_winner(
                    scores@,
                    order@,
                    self.mode(),
                    g * k,
                    group_end(g, k as int, n as int),
                    at[g],
                ));
            }
        }
        chosen
    }

    /// Partitions the contestants into tournaments of size `k` in an order
    /// drawn from `rng`, and returns the winner of each, as indices into
    /// `scores`.
    ///
    /// The population must not be empty. Whatever order was drawn: it holds
    /// every contestant once, the winners
    /// are those of `select_in_order` for it, no contestant is chosen twice,
    /// and there are no more winners than contestants.
    pub fn select(&self, scores: &Vec<i64>, rng: &mut ChaCha8Rng) -> (chosen: Vec<usize>)
        requires
            self.size() >= 1,
            scores@.len() > 0,
        ensures
            chosen@.len() > 0,
            exists|order: Seq<usize>|
                is_permutation(order, scores@.len()) && #[trigger] is_selection(
                    scores@,
                    order,
                    self.mode(),
                    self.size() as int,
                    chosen@,
                ),
            chosen@.len() <= scores@.len(),
            forall|g: int| 0 <= g < chosen@.len() ==> #[trigger] chosen@[g] < scores@.len(),
            chosen@.no_duplicates(),
    {
        let order = shuffled_indices(scores.len(), rng);
        let chosen = self.select_in_order(scores, &order);
        assert(is_selection(scores@, order@, self.mode(), self.size() as int, chosen@));
        assert(chosen@.len() > 0) by (nonlinear_arith)
            requires
                chosen@.len() * self.size() >= order@.len(),
                order@.len() > 0,
        ;
        chosen
    }
}

/// No chosen contestant has a strictly worse score than any contestant of
/// its own tournament group, and there are no more winners than contestants.
pub proof fn lemma_selected_is_best_of_group(
    scores: Seq<i64>,
    order: Seq<usize>,
    mode: Optimize,
    k: int,
    chosen: Seq<usize>,
    g: int,
    q: int,
)
    requires
        k >= 1,
        is_selection(scores, order, mode, k, chosen),
        0 <= g < chosen.len(),
        g * k <= q < g * k + k,
        q < order.len(),
    ensures
        !mode.prefers(scores[order[q] as int], scores[chosen[g] as int]),
        chosen.len() <= order.len(),
{
    let hi = group_end(g, k as int, order.len() as int);
    assert(wins_group(scores, order, mode, k, g, chosen[g]));
    let p = choose|p: int| #[trigger] is_winner(scores, order, mode, g * k, hi, p) && chosen[g] == order[p];
    assert(!mode.prefers(scores[order[q] as int], scores[order[p] as int]));
    assert(chosen.len() <= order.len()) by (nonlinear_arith)
        requires
            k >= 1,
            chosen.len() * k < order.len() + k,
    ;
}

} // verus!
