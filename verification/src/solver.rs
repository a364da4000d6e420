use crate::random::is_permutation;
use crate::utils::{median, median_of, precedes, stable_rank};
use vstd::prelude::*;

verus! {

/// Number of solved individuals at which training stops early.
pub const ENOUGH_SOLVED: usize = 50;

/// No birth in the list is later than the one at `latest`.
pub open spec fn is_latest(births: Seq<usize>, latest: int) -> bool {
    &&& 0 <= latest < births.len()
    &&& forall|i: int| 0 <= i < births.len() ==> #[trigger] births[i] <= births[latest]
}

/// The bookkeeping of a training run: which ids were handed out, how long
/// solves took so far, how long none has come, and how many individuals are solved.
#[derive(Debug)]
pub struct TrainSchedule {
    pop: usize,
    indexer: usize,
    select_epochs: Vec<usize>,
    stagnant_epochs: usize,
    solved: usize,
}

impl TrainSchedule {
    /// Target size of the pool.
    pub closed spec fn pop(&self) -> usize {
        self.pop
    }

    /// The id that the next new individual gets.
    pub closed spec fn next_id(&self) -> usize {
        self.indexer
    }

    /// For each epoch in which individuals were solved, the least number of
    /// epochs one of them took; before these, the epoch budget.
    pub closed spec fn select_epochs(&self) -> Seq<usize> {
        self.select_epochs@
    }

    /// Epochs since the last selection.
    pub closed spec fn stagnant_epochs(&self) -> usize {
        self.stagnant_epochs
    }

    /// Individuals solved so far.
    pub closed spec fn solved(&self) -> usize {
        self.solved
    }

    pub open spec fn wf(&self) -> bool {
        self.select_epochs().len() > 0
    }

    /// Selection is due once the epochs without selection exceed the median
    /// of the solve times.
    pub open spec fn selection_is_due(&self) -> bool {
        self.stagnant_epochs() > median_of(self.select_epochs())
    }

    pub fn new(pop: usize, epochs: usize) -> (schedule: Self)
        ensures
            schedule.wf(),
            schedule.pop() == pop,
            schedule.next_id() == 0,
            schedule.select_epochs() == seq![epochs],
            schedule.stagnant_epochs() == 0,
            schedule.solved() == 0,
    {
        let mut select_epochs: Vec<usize> = Vec::new();
        select_epochs.push(epochs);
        assert(select_epochs@ =~= seq![epochs]);
        Self { pop, indexer: 0, select_epochs, stagnant_epochs: 0, solved: 0 }
    }

    /// The id that the next new individual gets.
    pub fn indexer(&self) -> (id: usize)
        ensures
            id == self.next_id(),
    {
        self.indexer
    }

    /// Epochs since the last selection.
    pub fn stagnant(&self) -> (epochs: usize)
        ensures
            epochs == self.stagnant_epochs(),
    {
        self.stagnant_epochs
    }

    /// Individuals solved so far.
    pub fn solved_count(&self) -> (count: usize)
        ensures
            count == self.solved(),
    {
        self.solved
    }

    /// Whether the pool is cut down by tournament selection before this epoch.
    pub fn selection_due(&self) -> (due: bool)
        requires
            self.wf(),
        ensures
            due == self.selection_is_due(),
    {
        self.stagnant_epochs > median(&self.select_epochs)
    }

    /// Notes that selection took place.
    pub fn selected(&mut self)
        ensures
            final(self).stagnant_epochs() == 0,
            final(self).pop() == old(self).pop(),
            final(self).next_id() == old(self).next_id(),
            final(self).select_epochs() == old(self).select_epochs(),
            final(self).solved() == old(self).solved(),
    {
        self.stagnant_epochs = 0;
    }

    /// The ids of the fresh individuals that fill a pool of `population_len`
    /// up to its target size: as many as are missing, numbered on from the
    /// last id handed out.
    pub fn refill(&mut self, population_len: usize) -> (ids: Vec<usize>)
        requires
            old(self).next_id() + old(self).pop() <= usize::MAX,
        ensures
            ids@.len() == (if population_len < old(self).pop() {
                old(self).pop() - population_len
            } else {
                0
            }),
            forall|i: int| 0 <= i < ids@.len() ==> #[trigger] ids@[i] == old(self).next_id() + i,
            final(self).next_id() == old(self).next_id() + ids@.len(),
            final(self).pop() == old(self).pop(),
            final(self).select_epochs() == old(self).select_epochs(),
            final(self).stagnant_epochs() == old(self).stagnant_epochs(),
            final(self).solved() == old(self).solved(),
    {
        let mut ids: Vec<usize> = Vec::new();
        if population_len < self.pop {
            let deficit: usize = self.pop - population_len;
            let ghost start = self.indexer;
            let mut i: usize = 0;
            while i < deficit
                invariant
                    i <= deficit <= self.pop,
                    start + self.pop <= usize::MAX,
                    self.indexer == start + i,
                    ids@.len() == i,
                    forall|j: int| 0 <= j < i ==> #[trigger] ids@[j] == start + j,
                    self.pop == old(self).pop,
                    self.select_epochs == old(self).select_epochs,
                    self.stagnant_epochs == old(self).stagnant_epochs,
                    self.solved == old(self).solved,
                decreases deficit - i,
            {
                ids.push(self.indexer);
                self.indexer += 1;
                i += 1;
            }
        }
        ids
    }

    /// Closes epoch `epoch`, in which the individuals born in the epochs
    /// `births` were solved. Returns whether enough are solved to stop.
    ///
    /// Where any were solved, the least number of epochs that one of them
    /// took is recorded. The epoch counts as one more without selection.
    pub fn close_epoch(&mut self, epoch: usize, births: &Vec<usize>) -> (enough: bool)
        requires
            old(self).wf(),
            forall|i: int| 0 <= i < births@.len() ==> #[trigger] births@[i] <= epoch,
            old(self).stagnant_epochs() < usize::MAX,
            old(self).solved() + births@.len() <= usize::MAX,
        ensures
            final(self).wf(),
            final(self).pop() == old(self).pop(),
            final(self).next_id() == old(self).next_id(),
            final(self).stagnant_epochs() == old(self).stagnant_epochs() + 1,
            final(self).solved() == old(self).solved() + births@.len(),
            enough == (final(self).solved() >= ENOUGH_SOLVED),
            births@.len() == 0 ==> final(self).select_epochs() == old(self).select_epochs(),
            births@.len() > 0 ==> exists|latest: int|
                #[trigger] is_latest(births@, latest) && final(self).select_epochs() == old(self).select_epochs().push((epoch - births@[latest]) as usize),
    {
        if births.len() > 0 {
            let mut latest: usize = 0;
            let mut i: usize = 1;
            while i < births.len()
                invariant
                    1 <= i <= births@.len(),
                    latest < i,
                    forall|j: int| 0 <= j < i ==> births@[j] <= births@[latest as int],
                decreases births.len() - i,
            {
                if births[i] > births[latest] {
                    latest = i;
                }
                i += 1;
            }
            self.select_epochs.push(epoch - births[latest]);
            assert(is_latest(births@, latest as int));
        }
        self.stagnant_epochs += 1;
        self.solved += births.len();
        self.solved >= ENOUGH_SOLVED
    }
}

/// In the final order, place `a` comes before place `b`: its accuracy is
/// higher; or the accuracies are equal and its fitness is lower; or both are
/// equal and `a` is the earlier place.
pub open spec fn ranks_before(fitness: Seq<i64>, accuracy: Seq<i64>, a: int, b: int) -> bool {
    ||| accuracy[a] > accuracy[b]
    ||| (accuracy[a] == accuracy[b] && fitness[a] < fitness[b])
    ||| (accuracy[a] == accuracy[b] && fitness[a] == fitness[b] && a < b)
}

/// The order in which trained individuals are handed back: by descending
/// accuracy, and by ascending fitness among equal accuracies.
pub fn final_order(fitness: &Vec<i64>, accuracy: &Vec<i64>) -> (order: Vec<usize>)
    requires
        fitness@.len() == accuracy@.len(),
    ensures
        is_permutation(order@, fitness@.len()),
        forall|r: int, s: int|
            0 <= r < s < order@.len() ==> ranks_before(
                fitness@,
                accuracy@,
                #[trigger] order@[r] as int,
                #[trigger] order@[s] as int,
            ),
{
    let n: usize = fitness.len();
    let by_fitness = stable_rank(fitness, false);
    let mut keys: Vec<i64> = Vec::new();
    let mut i: usize = 0;
    while i < n
        invariant
            i <= n,
            n == fitness@.len(),
            n == accuracy@.len(),
            by_fitness@.len() == n,
            forall|r: int| 0 <= r < n ==> #[trigger] by_fitness@[r] < n,
            keys@.len() == i,
            forall|j: int| 0 <= j < i ==> #[trigger] keys@[j] == accuracy@[by_fitness@[j] as int],
        decreases n - i,
    {
        keys.push(accuracy[by_fitness[i]]);
        i += 1;
    }
    let by_accuracy = stable_rank(&keys, true);
    let mut order: Vec<usize> = Vec::new();
    let mut r: usize = 0;
    while r < n
        invariant
            r <= n,
            n == fitness@.len(),
            by_fitness@.len() == n,
            by_accuracy@.len() == n,
            forall|a: int| 0 <= a < n ==> #[trigger] by_fitness@[a] < n,
            forall|a: int| 0 <= a < n ==> #[trigger] by_accuracy@[a] < n,
            order@.len() == r,
            forall|j: int|
                0 <= j < r ==> #[trigger] order@[j] == by_fitness@[by_accuracy@[j] as int],
        decreases n - r,
    {
        order.push(by_fitness[by_accuracy[r]]);
        r += 1;
    }
    proof {
        assert forall|a: int, b: int|
            0 <= a < order@.len() && 0 <= b < order@.len() && a != b implies order@[a]
            != order@[b] by {
            assert(by_accuracy@[a] != by_accuracy@[b]);
        }
        assert forall|a: int, b: int| 0 <= a < b < order@.len() implies ranks_before(
            fitness@,
            accuracy@,
            #[trigger] order@[a] as int,
            #[trigger] order@[b] as int,
        ) by {
            let pa = by_accuracy@[a] as int;
            let pb = by_accuracy@[b] as int;
            assert(precedes(keys@, true, pa, pb));
            assert(keys@[pa] == accuracy@[by_fitness@[pa] as int]);
            assert(keys@[pb] == accuracy@[by_fitness@[pb] as int]);
            if keys@[pa] == keys@[pb] {
                assert(pa < pb);
                assert(precedes(fitness@, false, by_fitness@[pa] as int, by_fitness@[pb] as int));
            }
        }
    }
    order
}

} // verus!
