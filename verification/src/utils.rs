use std::collections::HashSet;
use vstd::prelude::*;
use vstd::relations::{sorted_by, total_ordering};
use vstd::seq_lib::lemma_sorted_unique;

verus! {

broadcast use vstd::std_specs::hash::group_hash_axioms;

/// The colors that occur in at least one of the sets.
pub fn union_sets(sets: &Vec<&HashSet<u8>>) -> (u: HashSet<u8>)
    ensures
        forall|c: u8|
            u@.contains(c) <==> exists|i: int| 0 <= i < sets@.len() && (#[trigger] sets@[i])@.contains(c),
{
    let mut u: HashSet<u8> = HashSet::new();
    let mut i: usize = 0;
    while i < sets.len()
        invariant
            i <= sets.len(),
            forall|c: u8|
                u@.contains(c) <==> exists|k: int| 0 <= k < i && (#[trigger] sets@[k])@.contains(c),
        decreases sets.len() - i,
    {
        let s: &HashSet<u8> = sets[i];
        let ghost before = u@;
        let mut c: u16 = 0;
        while c < 256
            invariant
                c <= 256,
                i < sets.len(),
                s@ == sets@[i as int]@,
                forall|d: u8|
                    #![trigger u@.contains(d)]
                    u@.contains(d) <==> (before.contains(d) || (d < c && s@.contains(d))),
            decreases 256 - c,
        {
            let color: u8 = c as u8;
            if s.contains(&color) {
                u.insert(color);
            }
            c += 1;
        }
        proof {
            assert forall|d: u8| u@.contains(d) implies exists|k: int|
                0 <= k < i + 1 && (#[trigger] sets@[k])@.contains(d) by {
                if before.contains(d) {
                    let k = choose|k: int| 0 <= k < i && (#[trigger] sets@[k])@.contains(d);
                    assert(sets@[k]@.contains(d));
                } else {
                    assert(sets@[i as int]@.contains(d));
                }
            }
            assert forall|d: u8|
                (exists|k: int| 0 <= k < i + 1 && (#[trigger] sets@[k])@.contains(d)) implies u@.contains(
                d,
            ) by {
                let k = choose|k: int| 0 <= k < i + 1 && (#[trigger] sets@[k])@.contains(d);
                if k < i {
                    assert(sets@[k]@.contains(d));
                    assert(before.contains(d));
                } else {
                    assert(s@.contains(d));
                }
            }
        }
        i += 1;
    }
    u
}

/// The usual order of the natural numbers.
pub open spec fn at_most() -> spec_fn(usize, usize) -> bool {
    |a: usize, b: usize| a <= b
}

/// The middle value of the numbers in ascending order; for an even count the
/// mean of the two middle values, rounded down.
pub open spec fn median_of(xs: Seq<usize>) -> int {
    let sorted = xs.sort_by(at_most());
    let n = xs.len() as int;
    if n % 2 == 0 {
        (sorted[n / 2 - 1] + sorted[n / 2]) / 2
    } else {
        sorted[n / 2] as int
    }
}

/// The numbers in ascending order.
pub fn sorted_ascending(xs: &Vec<usize>) -> (sorted: Vec<usize>)
    ensures
        sorted@ == xs@.sort_by(at_most()),
        sorted@.len() == xs@.len(),
{
    broadcast use vstd::multiset::group_multiset_axioms;
    broadcast use vstd::seq_lib::group_to_multiset_ensures;

    let mut work: Vec<usize> = Vec::new();
    let mut c: usize = 0;
    while c < xs.len()
        invariant
            c <= xs.len(),
            work@ == xs@.take(c as int),
        decreases xs.len() - c,
    {
        work.push(xs[c]);
        assert(work@ =~= xs@.take(c as int + 1));
        c += 1;
    }
    assert(work@ =~= xs@);
    let mut sorted: Vec<usize> = Vec::new();
    assert(sorted@.to_multiset().add(work@.to_multiset()) =~= xs@.to_multiset());
    while work.len() > 0
        invariant
            sorted@.len() + work@.len() == xs@.len(),
            sorted@.to_multiset().add(work@.to_multiset()) == xs@.to_multiset(),
            sorted_by(sorted@, at_most()),
            forall|a: int, b: int|
                0 <= a < sorted@.len() && 0 <= b < work@.len() ==> sorted@[a] <= work@[b],
        decreases work@.len(),
    {
        let mut least: usize = 0;
        let mut q: usize = 1;
        while q < work.len()
            invariant
                1 <= q <= work@.len(),
                least < q,
                forall|b: int| 0 <= b < q ==> work@[least as int] <= work@[b],
            decreases work.len() - q,
        {
            if work[q] < work[least] {
                least = q;
            }
            q += 1;
        }
        let ghost work_before = work@;
        let ghost sorted_before = sorted@;
        let x: usize = work.remove(least);
        sorted.push(x);
        proof {
            work_before.to_multiset_ensures();
            sorted_before.to_multiset_ensures();
            assert(work@ == work_before.remove(least as int));
            assert(x == work_before[least as int]);
            assert(sorted@ == sorted_before.push(x));
            assert(work@.to_multiset() =~= work_before.to_multiset().remove(x));
            assert(sorted@.to_multiset() =~= sorted_before.to_multiset().insert(x));
            assert(work_before.to_multiset().count(x) > 0) by {
                assert(work_before.contains(x));
            }
            assert(sorted@.to_multiset().add(work@.to_multiset()) =~= sorted_before.to_multiset().add(
                work_before.to_multiset(),
            ));
            assert forall|a: int, b: int|
                0 <= a < sorted@.len() && 0 <= b < work@.len() implies sorted@[a] <= work@[b] by {
                let bb = if b < least {
                    b
                } else {
                    b + 1
                };
                assert(work@[b] == work_before[bb]);
            }
        }
    }
    proof {
        assert(work@.to_multiset() =~= Seq::<usize>::empty().to_multiset());
        assert(sorted@.to_multiset() =~= xs@.to_multiset());
        assert(total_ordering(at_most()));
        xs@.lemma_sort_by_ensures(at_most());
        lemma_sorted_unique(sorted@, xs@.sort_by(at_most()), at_most());
    }
    sorted
}

/// The median of a non-empty list of numbers.
pub fn median(xs: &Vec<usize>) -> (mid: usize)
    requires
        xs@.len() > 0,
    ensures
        mid == median_of(xs@),
{
    let sorted = sorted_ascending(xs);
    let n: usize = sorted.len();
    if n % 2 == 0 {
        let a: usize = sorted[n / 2 - 1];
        let b: usize = sorted[n / 2];
        a / 2 + b / 2 + (a % 2 + b % 2) / 2
    } else {
        sorted[n / 2]
    }
}

/// In a ranking by `keys`, place `a` comes before place `b`: its key is
/// smaller (larger, when descending), or the keys are equal and `a` is the
/// earlier place.
pub open spec fn precedes(keys: Seq<i64>, descending: bool, a: int, b: int) -> bool {
    ||| (!descending && keys[a] < keys[b])
    ||| (descending && keys[a] > keys[b])
    ||| (keys[a] == keys[b] && a < b)
}

/// `rank` lists every place of `keys` once, each before all the places it precedes:
/// the order that a stable sort by key gives.
pub open spec fn is_stable_rank(keys: Seq<i64>, descending: bool, rank: Seq<usize>) -> bool {
    &&& rank.len() == keys.len()
    &&& forall|r: int| 0 <= r < rank.len() ==> #[trigger] rank[r] < keys.len()
    &&& rank.no_duplicates()
    &&& forall|r: int, s: int|
        0 <= r < s < rank.len() ==> precedes(
            keys,
            descending,
            #[trigger] rank[r] as int,
            #[trigger] rank[s] as int,
        )
}

/// The places of `keys` in the order of a stable sort by key.
pub fn stable_rank(keys: &Vec<i64>, descending: bool) -> (rank: Vec<usize>)
    ensures
        is_stable_rank(keys@, descending, rank@),
{
    let n: usize = keys.len();
    let mut taken: Vec<bool> = Vec::new();
    let mut c: usize = 0;
    while c < n
        invariant
            c <= n,
            taken@.len() == c,
            forall|q: int| 0 <= q < c ==> !(#[trigger] taken@[q]),
        decreases n - c,
    {
        taken.push(false);
        c += 1;
    }
    let mut rank: Vec<usize> = Vec::new();
    while rank.len() < n
        invariant
            n == keys@.len(),
            taken@.len() == n,
            rank@.len() <= n,
            forall|r: int| 0 <= r < rank@.len() ==> #[trigger] rank@[r] < n,
            forall|r: int| 0 <= r < rank@.len() ==> taken@[#[trigger] rank@[r] as int],
            forall|q: int| 0 <= q < n && #[trigger] taken@[q] ==> rank@.contains(q as usize),
            rank@.no_duplicates(),
            forall|r: int, s: int|
                0 <= r < s < rank@.len() ==> precedes(
                    keys@,
                    descending,
                    #[trigger] rank@[r] as int,
                    #[trigger] rank@[s] as int,
                ),
            forall|r: int, q: int|
                0 <= r < rank@.len() && 0 <= q < n && !(#[trigger] taken@[q]) ==> precedes(
                    keys@,
                    descending,
                    #[trigger] rank@[r] as int,
                    q,
                ),
        decreases n - rank@.len(),
    {
        // a place is free, since fewer than n distinct places are taken
        let mut first: usize = 0;
        proof {
            lemma_some_place_free(taken@, rank@);
        }
        while taken[first]
            invariant
                n == keys@.len(),
                taken@.len() == n,
                first < n,
                forall|q: int| 0 <= q < first ==> #[trigger] taken@[q],
                exists|q: int| 0 <= q < n && !(#[trigger] taken@[q]),
            decreases n - first,
        {
            proof {
                let q = choose|q: int| 0 <= q < n && !(#[trigger] taken@[q]);
                assert(q > first);
            }
            first += 1;
        }
        let mut best: usize = first;
        let mut q: usize = first + 1;
        while q < n
            invariant
                n == keys@.len(),
                taken@.len() == n,
                first <= best < q <= n,
                !taken@[best as int],
                forall|p: int| 0 <= p < first ==> #[trigger] taken@[p],
                forall|p: int|
                    0 <= p < q && !(#[trigger] taken@[p]) && p != best ==> precedes(
                        keys@,
                        descending,
                        best as int,
                        p,
                    ),
            decreases n - q,
        {
            if !taken[q] {
                let better: bool = if descending {
                    keys[q] > keys[best]
                } else {
                    keys[q] < keys[best]
                };
                if better {
                    best = q;
                }
            }
            q += 1;
        }
        let ghost rank_before = rank@;
        let ghost taken_before = taken@;
        taken[best] = true;
        rank.push(best);
        proof {
            assert forall|p: int| 0 <= p < n && #[trigger] taken@[p] implies rank@.contains(
                p as usize,
            ) by {
                if p == best {
                    assert(rank@[rank@.len() - 1] == best);
                } else {
                    assert(taken_before[p]);
                    assert(rank_before.contains(p as usize));
                    let r = choose|r: int| 0 <= r < rank_before.len() && rank_before[r] == p as usize;
                    assert(rank@[r] == p as usize);
                }
            }
            assert forall|r: int, s: int| 0 <= r < rank@.len() && 0 <= s < rank@.len() && r != s implies rank@[r]
                != rank@[s] by {
                if r < rank_before.len() && s < rank_before.len() {
                    assert(rank_before[r] != rank_before[s]);
                } else if r < rank_before.len() {
                    assert(taken_before[rank_before[r] as int]);
                } else {
                    assert(taken_before[rank_before[s] as int]);
                }
            }
            assert forall|r: int, s: int| 0 <= r < s < rank@.len() implies precedes(
                keys@,
                descending,
                #[trigger] rank@[r] as int,
                #[trigger] rank@[s] as int,
            ) by {
                if s < rank_before.len() {
                    assert(rank@[r] == rank_before[r] && rank@[s] == rank_before[s]);
                } else {
                    assert(rank@[r] == rank_before[r]);
                    assert(!taken_before[best as int]);
                }
            }
            assert forall|r: int, p: int|
                0 <= r < rank@.len() && 0 <= p < n && !(#[trigger] taken@[p]) implies precedes(
                keys@,
                descending,
                #[trigger] rank@[r] as int,
                p,
            ) by {
                assert(!taken_before[p]);
                if r < rank_before.len() {
                    assert(rank@[r] == rank_before[r]);
                }
            }
        }
    }
    rank
}

/// Where fewer places are listed than there are, and the listed ones are
/// exactly the taken ones, some place is not taken.
proof fn lemma_some_place_free(taken: Seq<bool>, rank: Seq<usize>)
    requires
        rank.len() < taken.len(),
        taken.len() <= usize::MAX,
        rank.no_duplicates(),
        forall|r: int| 0 <= r < rank.len() ==> #[trigger] rank[r] < taken.len(),
        forall|q: int| 0 <= q < taken.len() && #[trigger] taken[q] ==> rank.contains(q as usize),
    ensures
        exists|q: int| 0 <= q < taken.len() && !(#[trigger] taken[q]),
{
    if forall|q: int| 0 <= q < taken.len() ==> #[trigger] taken[q] {
        let n = taken.len();
        let all = Set::new(|x: usize| x < n);
        let listed = rank.to_set();
        assert forall|x: usize| all.contains(x) implies listed.contains(x) by {
            assert(taken[x as int]);
            assert(rank.contains(x));
        }
        assert(all.subset_of(listed));
        rank.unique_seq_to_set();
        lemma_places_count(n);
        vstd::set_lib::lemma_len_subset(all, listed);
    }
}

/// There are `n` numbers below `n`.
proof fn lemma_places_count(n: nat)
    requires
        n <= usize::MAX,
    ensures
        Set::new(|x: usize| x < n).finite(),
        Set::new(|x: usize| x < n).len() == n,
    decreases n,
{
    let s = Set::new(|x: usize| x < n);
    if n == 0 {
        assert(s =~= Set::<usize>::empty());
    } else {
        let t = Set::new(|x: usize| x < (n - 1) as nat);
        lemma_places_count((n - 1) as nat);
        assert(s =~= t.insert((n - 1) as usize));
    }
}

/// A list of `n` different numbers below `n` holds every number below `n`.
pub proof fn lemma_rank_covers(rank: Seq<usize>, x: usize)
    requires
        rank.len() <= usize::MAX,
        rank.no_duplicates(),
        forall|r: int| 0 <= r < rank.len() ==> #[trigger] rank[r] < rank.len(),
        x < rank.len(),
    ensures
        rank.contains(x),
{
    if !rank.contains(x) {
        let n = rank.len();
        let all = Set::new(|v: usize| v < n);
        let listed = rank.to_set();
        lemma_places_count(n);
        rank.unique_seq_to_set();
        assert forall|v: usize| listed.contains(v) implies all.remove(x).contains(v) by {
            assert(rank.contains(v));
            let r = choose|r: int| 0 <= r < rank.len() && rank[r] == v;
            assert(rank[r] < n);
        }
        assert(listed.subset_of(all.remove(x)));
        vstd::set_lib::lemma_len_subset(listed, all.remove(x));
    }
}

/// Two stable ranks of the same keys agree on their first `upto` places.
proof fn lemma_stable_rank_prefix(
    keys: Seq<i64>,
    descending: bool,
    a: Seq<usize>,
    b: Seq<usize>,
    upto: int,
)
    requires
        keys.len() <= usize::MAX,
        is_stable_rank(keys, descending, a),
        is_stable_rank(keys, descending, b),
        0 <= upto <= keys.len(),
    ensures
        forall|q: int| 0 <= q < upto ==> a[q] == b[q],
    decreases upto,
{
    if upto > 0 {
        lemma_stable_rank_prefix(keys, descending, a, b, upto - 1);
        let r = upto - 1;
        let x = a[r];
        let y = b[r];
        if x != y {
            lemma_rank_covers(b, x);
            lemma_rank_covers(a, y);
            let s = choose|s: int| 0 <= s < b.len() && b[s] == x;
            let t = choose|t: int| 0 <= t < a.len() && a[t] == y;
            if s < r {
                assert(a[s] == b[s]);
            }
            if t < r {
                assert(b[t] == a[t]);
            }
            assert(r < s && r < t);
            assert(precedes(keys, descending, b[r] as int, b[s] as int));
            assert(precedes(keys, descending, a[r] as int, a[t] as int));
        }
    }
}

/// The keys determine their stable rank.
pub proof fn lemma_stable_rank_unique(
    keys: Seq<i64>,
    descending: bool,
    a: Seq<usize>,
    b: Seq<usize>,
)
    requires
        keys.len() <= usize::MAX,
        is_stable_rank(keys, descending, a),
        is_stable_rank(keys, descending, b),
    ensures
        a == b,
{
    lemma_stable_rank_prefix(keys, descending, a, b, keys.len() as int);
    assert(a =~= b);
}

} // verus!
