use crate::random::{ascending, is_permutation};
use crate::utils::{is_stable_rank, stable_rank};
use vstd::arithmetic::div_mod::{lemma_div_is_ordered, lemma_fundamental_div_mod};
use vstd::prelude::*;

verus! {

/// Why an optimizer run ended.
#[derive(Clone, Copy, Debug, PartialEq, Eq, Structural)]
pub enum TerminationReason {
    TargetFunctionValue,
    TolFunHist,
    MaxFunctionEvaluations,
    MinSigma,
    TimeLimit,
}

/// What the caller has observed at the start of a generation.
#[derive(Clone, Copy, Debug)]
pub struct StopSignals {
    /// A time limit is set and the elapsed time exceeds it.
    pub time_limit_reached: bool,
    /// The step size is below its floor.
    pub sigma_at_floor: bool,
    /// The range of the recent best values is below the tolerance.
    pub history_flat: bool,
}

/// The reason, if any, for which a run ends before its next generation: the
/// first that holds of time limit, step-size floor, evaluation budget and flat
/// history, in this order.
pub open spec fn stop_reason(
    signals: StopSignals,
    fevals: usize,
    max_function_evals: usize,
) -> Option<TerminationReason> {
    if signals.time_limit_reached {
        Some(TerminationReason::TimeLimit)
    } else if signals.sigma_at_floor {
        Some(TerminationReason::MinSigma)
    } else if fevals >= max_function_evals {
        Some(TerminationReason::MaxFunctionEvaluations)
    } else if signals.history_flat {
        Some(TerminationReason::TolFunHist)
    } else {
        None
    }
}

/// Decides whether the run ends before its next generation.
pub fn check_termination(signals: StopSignals, fevals: usize, max_function_evals: usize) -> (reason:
    Option<TerminationReason>)
    ensures
        reason == stop_reason(signals, fevals, max_function_evals),
{
    if signals.time_limit_reached {
        Some(TerminationReason::TimeLimit)
    } else if signals.sigma_at_floor {
        Some(TerminationReason::MinSigma)
    } else if fevals >= max_function_evals {
        Some(TerminationReason::MaxFunctionEvaluations)
    } else if signals.history_flat {
        Some(TerminationReason::TolFunHist)
    } else {
        None
    }
}

/// Number of past generations whose best values the flat-history test looks
/// at: ten, plus thirty times the dimension over the population size, rounded up.
pub open spec fn history_window(dim: int, lambda: int) -> int {
    10 + (30 * dim + lambda - 1) / lambda
}

pub fn past_generations_a(dim: usize, lambda: usize) -> (window: usize)
    requires
        lambda >= 1,
        30 * dim + lambda + 10 <= usize::MAX,
    ensures
        window == history_window(dim as int, lambda as int),
{
    let numerator: usize = 30 * dim + lambda - 1;
    proof {
        lemma_div_is_ordered(numerator as int / 1, numerator as int, 1);
        assert(numerator as int / (lambda as int) <= numerator) by (nonlinear_arith)
            requires
                numerator >= 0,
                lambda >= 1,
        ;
    }
    10 + numerator / lambda
}

/// How far the marks of the slots at positions `i - 1` and `i` of `order` lie
/// apart, less the target spacing.
pub open spec fn gap(marks: Seq<usize>, order: Seq<usize>, n_steps: int, i: int) -> int {
    marks[order[i] as int] - marks[order[i - 1] as int] - n_steps
}

/// Position `i` is the first among `1..order.len()` at which the gap is smallest.
pub open spec fn is_first_smallest_gap(
    marks: Seq<usize>,
    order: Seq<usize>,
    n_steps: int,
    i: int,
) -> bool {
    &&& 1 <= i < order.len()
    &&& forall|q: int|
        1 <= q < order.len() ==> gap(marks, order, n_steps, i) <= #[trigger] gap(
            marks,
            order,
            n_steps,
            q,
        )
    &&& forall|q: int|
        1 <= q < i ==> gap(marks, order, n_steps, i) < #[trigger] gap(marks, order, n_steps, q)
}

/// The order with the slot at `pos` taken out and put at the end.
pub open spec fn moved_to_back(order: Seq<usize>, pos: int) -> Seq<usize> {
    order.remove(pos).push(order[pos])
}

/// What the caller does after a refresh: store the evolution path in `slot`,
/// then recompute the direction vector and both coefficients of the slots at
/// positions `start..stored` of the order.
#[derive(Clone, Copy, Debug)]
pub struct Refresh {
    /// The slot that takes the current evolution path.
    pub slot: usize,
    /// First position of the order whose slot is recomputed.
    pub start: usize,
    /// Number of slots in use after the refresh.
    pub stored: usize,
    /// The position of the order that was vacated, if all slots were in use.
    pub evicted: Option<usize>,
}

/// The bookkeeping of the stored direction vectors: a fixed number of slots,
/// the order in which they are applied, and the generation at which each was
/// last filled. The vectors themselves live with the caller.
#[derive(Debug)]
pub struct SlotRing {
    m: usize,
    period: usize,
    n_steps: usize,
    /// order of slot indices
    j: Vec<usize>,
    /// generation markers per slot
    l: Vec<usize>,
    /// number of stored vectors
    it: usize,
    n_generations: usize,
}

impl SlotRing {
    /// Number of slots.
    pub closed spec fn capacity(&self) -> usize {
        self.m
    }

    /// Number of generations between two refreshes.
    pub closed spec fn period(&self) -> usize {
        self.period
    }

    /// Target spacing between the marks of neighbouring slots.
    pub closed spec fn n_steps(&self) -> usize {
        self.n_steps
    }

    /// Slot indices, in the order in which the slots are applied.
    pub closed spec fn order(&self) -> Seq<usize> {
        self.j@
    }

    /// For each slot, the generation at which it was last filled.
    pub closed spec fn marks(&self) -> Seq<usize> {
        self.l@
    }

    /// Number of slots in use.
    pub closed spec fn stored(&self) -> usize {
        self.it
    }

    /// Generations completed.
    pub closed spec fn generations(&self) -> usize {
        self.n_generations
    }

    /// The order names every slot once, and is still ascending while slots are free.
    pub open spec fn wf(&self) -> bool {
        &&& self.capacity() >= 1
        &&& self.period() >= 1
        &&& is_permutation(self.order(), self.capacity() as nat)
        &&& self.marks().len() == self.capacity()
        &&& self.stored() <= self.capacity()
        &&& (self.generations() / self.period() < self.capacity() ==> self.order() == ascending(
            self.capacity() as nat,
        ))
    }

    /// A refresh is due at the current generation.
    pub open spec fn refresh_due(&self) -> bool {
        self.generations() % self.period() == 0
    }

    /// All slots are in use and one has to make room.
    pub open spec fn must_evict(&self) -> bool {
        self.generations() / self.period() >= self.capacity() && self.capacity() > 1
    }

    /// The position of the order that makes room: the front when every gap is
    /// at least the target spacing, else the first position whose gap is smallest.
    pub open spec fn evicts(&self, pos: int) -> bool {
        exists|i: int|
            #[trigger] is_first_smallest_gap(self.marks(), self.order(), self.n_steps() as int, i)
                && pos == (if gap(self.marks(), self.order(), self.n_steps() as int, i) >= 0 {
                0
            } else {
                i
            })
    }

    /// `m` empty slots, refreshed every `period` generations.
    pub fn new(m: usize, period: usize, n_steps: usize) -> (ring: Self)
        requires
            m >= 1,
            period >= 1,
        ensures
            ring.wf(),
            ring.capacity() == m,
            ring.period() == period,
            ring.n_steps() == n_steps,
            ring.order() == ascending(m as nat),
            ring.marks() == Seq::new(m as nat, |i: int| 0usize),
            ring.stored() == 0,
            ring.generations() == 0,
    {
        let mut j: Vec<usize> = Vec::new();
        let mut l: Vec<usize> = Vec::new();
        let mut i: usize = 0;
        while i < m
            invariant
                i <= m,
                j.len() == i,
                l.len() == i,
                forall|a: int| 0 <= a < i ==> #[trigger] j@[a] == a as usize,
                forall|a: int| 0 <= a < i ==> #[trigger] l@[a] == 0,
            decreases m - i,
        {
            j.push(i);
            l.push(0);
            i += 1;
        }
        assert(j@ =~= ascending(m as nat));
        assert(l@ =~= Seq::new(m as nat, |i: int| 0usize));
        Self { m, period, n_steps, j, l, it: 0, n_generations: 0 }
    }

    /// Generations completed.
    pub fn n_generations(&self) -> (n: usize)
        ensures
            n == self.generations(),
    {
        self.n_generations
    }

    /// Number of slots in use.
    pub fn it(&self) -> (n: usize)
        ensures
            n == self.stored(),
    {
        self.it
    }

    /// The slot at position `t` of the order.
    pub fn slot_at(&self, t: usize) -> (slot: usize)
        requires
            self.wf(),
            t < self.capacity(),
        ensures
            slot == self.order()[t as int],
            slot < self.capacity(),
    {
        self.j[t]
    }

    /// Counts one more completed generation.
    pub fn next_generation(&mut self)
        requires
            old(self).wf(),
            old(self).generations() < usize::MAX,
        ensures
            final(self).wf(),
            final(self).generations() == old(self).generations() + 1,
            final(self).capacity() == old(self).capacity(),
            final(self).period() == old(self).period(),
            final(self).n_steps() == old(self).n_steps(),
            final(self).order() == old(self).order(),
            final(self).marks() == old(self).marks(),
            final(self).stored() == old(self).stored(),
    {
        proof {
            lemma_div_is_ordered(
                self.n_generations as int,
                self.n_generations as int + 1,
                self.period as int,
            );
        }
        self.n_generations += 1;
    }

    /// Every `period` generations, picks the slot that takes the current
    /// evolution path and marks it with the current generation.
    ///
    /// While slots are free the next free one is taken. Once all are in use,
    /// the slot at the evicted position moves to the back of the order and is
    /// taken. Between refreshes nothing changes and the result is `None`.
    pub fn refresh(&mut self) -> (job: Option<Refresh>)
        requires
            old(self).wf(),
        ensures
            final(self).wf(),
            final(self).capacity() == old(self).capacity(),
            final(self).period() == old(self).period(),
            final(self).n_steps() == old(self).n_steps(),
            final(self).generations() == old(self).generations(),
            !old(self).refresh_due() ==> job is None,
            !old(self).refresh_due() ==> final(self).order() == old(self).order(),
            !old(self).refresh_due() ==> final(self).marks() == old(self).marks(),
            !old(self).refresh_due() ==> final(self).stored() == old(self).stored(),
            old(self).refresh_due() ==> job is Some && {
                let ng = old(self).generations() / old(self).period();
                let r = job->Some_0;
                &&& r.stored == final(self).stored()
                &&& r.stored == (if ng + 1 < old(self).capacity() {
                    ng + 1
                } else {
                    old(self).capacity() as int
                })
                &&& r.slot == final(self).order()[r.stored - 1]
                &&& final(self).marks() == old(self).marks().update(
                    r.slot as int,
                    old(self).generations(),
                )
                &&& r.start <= r.stored
                &&& match r.evicted {
                    Some(pos) => {
                        &&& old(self).must_evict()
                        &&& old(self).evicts(pos as int)
                        &&& final(self).order() == moved_to_back(old(self).order(), pos as int)
                        &&& r.start == (if pos == 1 {
                            0
                        } else {
                            pos
                        })
                    },
                    None => {
                        &&& !old(self).must_evict()
                        &&& final(self).order() == old(self).order()
                        &&& r.start == 0
                    },
                }
            },
    {
        if self.n_generations % self.period != 0 {
            return None;
        }
        let ng: usize = self.n_generations / self.period;
        let m: usize = self.m;
        let period: usize = self.period;
        let ghost pre = *self;
        let ghost old_order = self.j@;
        proof {
            lemma_fundamental_div_mod(self.n_generations as int, self.period as int);
            assert(period * ng == self.n_generations);
            assert(ng * period == period * ng) by (nonlinear_arith);
        }
        let mut evicted: Option<usize> = None;
        if ng >= m && m > 1 {
            // choose pair with distance closest to n_steps
            let mut i_min: usize = 1;
            let mut d_min: i128 = (self.l[self.j[1]] as i128 - self.l[self.j[0]] as i128)
                - self.n_steps as i128;
            let mut q: usize = 2;
            while q < m
                invariant
                    2 <= q <= m,
                    *self == pre,
                    m == self.j@.len(),
                    m == self.l@.len(),
                    self.j@ == old_order,
                    is_permutation(self.j@, m as nat),
                    1 <= i_min < q,
                    d_min == gap(self.l@, self.j@, self.n_steps as int, i_min as int),
                    forall|p: int|
                        1 <= p < q ==> d_min <= #[trigger] gap(
                            self.l@,
                            self.j@,
                            self.n_steps as int,
                            p,
                        ),
                    forall|p: int|
                        1 <= p < i_min ==> d_min < #[trigger] gap(
                            self.l@,
                            self.j@,
                            self.n_steps as int,
                            p,
                        ),
                decreases m - q,
            {
                let d_cur: i128 = (self.l[self.j[q]] as i128 - self.l[self.j[q - 1]] as i128)
                    - self.n_steps as i128;
                if d_cur < d_min {
                    d_min = d_cur;
                    i_min = q;
                }
                q += 1;
            }
            assert(is_first_smallest_gap(self.l@, self.j@, self.n_steps as int, i_min as int));
            let pos: usize = if d_min >= 0 { 0 } else { i_min };
            proof {
                assert(self.l@ == pre.marks() && self.j@ == pre.order() && self.n_steps
                    == pre.n_steps());
                assert(is_first_smallest_gap(
                    pre.marks(),
                    pre.order(),
                    pre.n_steps() as int,
                    i_min as int,
                ));
                assert(d_min == gap(pre.marks(), pre.order(), pre.n_steps() as int, i_min as int));
                assert(pre.evicts(pos as int));
            }
            // rotate order
            let updated: usize = self.j[pos];
            let mut a: usize = pos;
            while a < m - 1
                invariant
                    pos <= a <= m - 1,
                    self.m == pre.m,
                    self.period == pre.period,
                    self.n_steps == pre.n_steps,
                    self.l == pre.l,
                    self.it == pre.it,
                    self.n_generations == pre.n_generations,
                    m == self.j@.len(),
                    m == old_order.len(),
                    forall|b: int| 0 <= b < pos ==> #[trigger] self.j@[b] == old_order[b],
                    forall|b: int| pos <= b < a ==> #[trigger] self.j@[b] == old_order[b + 1],
                    forall|b: int| a <= b < m ==> #[trigger] self.j@[b] == old_order[b],
                decreases m - 1 - a,
            {
                let next: usize = self.j[a + 1];
                self.j[a] = next;
                a += 1;
            }
            self.j[m - 1] = updated;
            proof {
                let moved = moved_to_back(old_order, pos as int);
                assert(self.j@ =~= moved);
                assert forall|x: int, y: int|
                    0 <= x < moved.len() && 0 <= y < moved.len() && x != y implies moved[x]
                    != moved[y] by {
                    let sx = if x == m - 1 {
                        pos as int
                    } else if x < pos {
                        x
                    } else {
                        x + 1
                    };
                    let sy = if y == m - 1 {
                        pos as int
                    } else if y < pos {
                        y
                    } else {
                        y + 1
                    };
                    assert(moved[x] == old_order[sx]);
                    assert(moved[y] == old_order[sy]);
                    assert(sx != sy);
                }
                assert forall|x: int| 0 <= x < m implies #[trigger] moved[x] < m by {
                    let sx = if x == m - 1 {
                        pos as int
                    } else if x < pos {
                        x
                    } else {
                        x + 1
                    };
                    assert(moved[x] == old_order[sx]);
                }
            }
            evicted = Some(pos);
        }
        self.it = if ng < m - 1 { ng + 1 } else { m };
        // record generation marker
        let last_slot: usize = self.j[self.it - 1];
        self.l[last_slot] = ng * period;
        let start: usize = match evicted {
            Some(pos) => if pos == 1 { 0 } else { pos },
            None => 0,
        };
        proof {
            assert(self.l@ == pre.l@.update(last_slot as int, pre.n_generations));
            match evicted {
                Some(pos) => {
                    assert(pre.must_evict());
                    assert(pre.evicts(pos as int));
                    assert(self.j@ == moved_to_back(pre.j@, pos as int));
                },
                None => {
                    assert(!pre.must_evict());
                    assert(self.j@ == pre.j@);
                },
            }
        }
        Some(Refresh { slot: last_slot, start, stored: self.it, evicted })
    }
}

/// The population size actually used, at least two, and the number of
/// candidates that are recombined, half of it.
pub fn population_sizes(lambda: usize) -> (sizes: (usize, usize))
    ensures
        sizes.0 == (if lambda < 2 { 2 } else { lambda as int }),
        sizes.1 == sizes.0 / 2,
        sizes.1 >= 1,
{
    let lambda: usize = if lambda < 2 { 2 } else { lambda };
    let half: usize = lambda / 2;
    let mu: usize = if half < 1 { 1 } else { half };
    (lambda, mu)
}

/// The weight of a rank among `len` ranks: the best rank weighs `len - 1`,
/// the worst nothing.
pub open spec fn rank_weight(len: int, position: int) -> int {
    len - 1 - position
}

/// The rank-sum difference over the first `upto` ranks of the merged
/// ranking of two generations: the weights of the ranks held by the current
/// generation, less those of the ranks held by the previous one.
pub open spec fn rank_sum_difference(is_current: Seq<bool>, upto: int) -> int
    decreases upto,
{
    if upto <= 0 {
        0
    } else {
        rank_sum_difference(is_current, upto - 1) + (if is_current[upto - 1] {
            rank_weight(is_current.len() as int, upto - 1)
        } else {
            -rank_weight(is_current.len() as int, upto - 1)
        })
    }
}

/// The statistic that drives the step size: the rank-sum difference of the
/// merged ranking, in which `is_current[p]` tells whether the candidate at
/// rank `p` belongs to the current generation.
pub fn psr_rank_difference(is_current: &Vec<bool>) -> (difference: i64)
    requires
        is_current@.len() <= 0x8000_0000,
    ensures
        difference == rank_sum_difference(is_current@, is_current@.len() as int),
{
    let len: usize = is_current.len();
    let mut acc: i64 = 0;
    let mut p: usize = 0;
    while p < len
        invariant
            p <= len,
            len == is_current@.len(),
            len <= 0x8000_0000,
            acc == rank_sum_difference(is_current@, p as int),
            -(p * len) <= acc <= p * len,
        decreases len - p,
    {
        proof {
            assert((p + 1) * len == p * len + len) by (nonlinear_arith);
            assert(p * len <= 0x8000_0000 * 0x8000_0000) by (nonlinear_arith)
                requires
                    0 <= p <= 0x8000_0000,
                    0 <= len <= 0x8000_0000,
            ;
        }
        let weight: i64 = (len - 1 - p) as i64;
        if is_current[p] {
            acc = acc + weight;
        } else {
            acc = acc - weight;
        }
        p += 1;
    }
    acc
}

/// The merged ranking of two generations by ascending fitness key, the
/// current generation before the previous one among equal keys and each in
/// its own order: for each rank, whether its candidate belongs to the
/// current generation.
pub fn merged_ranking(current: &Vec<i64>, previous: &Vec<i64>) -> (is_current: Vec<bool>)
    requires
        current@.len() + previous@.len() <= usize::MAX,
    ensures
        is_current@.len() == current@.len() + previous@.len(),
        exists|rank: Seq<usize>|
            #[trigger] is_stable_rank(current@ + previous@, false, rank) && forall|r: int|
                0 <= r < is_current@.len() ==> #[trigger] is_current@[r] == (rank[r]
                    < current@.len()),
{
    let mut merged: Vec<i64> = Vec::new();
    let mut i: usize = 0;
    while i < current.len()
        invariant
            i <= current.len(),
            merged@ == current@.take(i as int),
        decreases current.len() - i,
    {
        merged.push(current[i]);
        assert(merged@ =~= current@.take(i as int + 1));
        i += 1;
    }
    assert(merged@ =~= current@);
    let mut k: usize = 0;
    while k < previous.len()
        invariant
            k <= previous.len(),
            current@.len() + previous@.len() <= usize::MAX,
            merged@ == current@ + previous@.take(k as int),
        decreases previous.len() - k,
    {
        merged.push(previous[k]);
        assert(merged@ =~= current@ + previous@.take(k as int + 1));
        k += 1;
    }
    assert(merged@ =~= current@ + previous@) by {
        assert(previous@.take(previous@.len() as int) =~= previous@);
    }
    let rank = stable_rank(&merged, false);
    let mut is_current: Vec<bool> = Vec::new();
    let mut r: usize = 0;
    while r < rank.len()
        invariant
            r <= rank.len(),
            is_current@.len() == r,
            forall|q: int| 0 <= q < r ==> #[trigger] is_current@[q] == (rank@[q] < current@.len()),
        decreases rank.len() - r,
    {
        is_current.push(rank[r] < current.len());
        r += 1;
    }
    assert(is_stable_rank(current@ + previous@, false, rank@));
    is_current
}

} // verus!
