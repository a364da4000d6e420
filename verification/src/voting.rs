use crate::augment::majority_index;
use crate::random::ascending;
use crate::utils::{is_stable_rank, stable_rank};
use indexmap::IndexMap;
use std::collections::hash_map::RandomState;
use vstd::prelude::*;

verus! {

/// The insertion-ordered hash map of the crate `indexmap`.
#[verifier::external_type_specification]
#[verifier::external_body]
#[verifier::reject_recursive_types(K)]
#[verifier::reject_recursive_types(V)]
#[verifier::reject_recursive_types(S)]
pub struct ExIndexMap<K, V, S>(IndexMap<K, V, S>);

/// What a tally holds, in insertion order: for each prediction hash, the
/// place of the first candidate that predicted it and the number that did.
pub uninterp spec fn tally_entries(map: IndexMap<u64, (usize, usize), RandomState>) -> Seq<
    (u64, (usize, usize)),
>;

/// `IndexMap::new`.
///
/// Trusted: the new map holds nothing.
#[verifier::external_body]
fn tally_new() -> (map: IndexMap<u64, (usize, usize), RandomState>)
    ensures
        tally_entries(map) == Seq::<(u64, (usize, usize))>::empty(),
{
    IndexMap::new()
}

/// `IndexMap::len`.
///
/// Trusted: the number of pairs held.
#[verifier::external_body]
fn tally_len(map: &IndexMap<u64, (usize, usize), RandomState>) -> (len: usize)
    ensures
        len == tally_entries(*map).len(),
{
    map.len()
}

/// `IndexMap::get_index_of`.
///
/// Trusted: the place of a pair with this key where there is one, `None`
/// where no pair has this key.
#[verifier::external_body]
fn tally_index_of(map: &IndexMap<u64, (usize, usize), RandomState>, key: u64) -> (place: Option<
    usize,
>)
    ensures
        match place {
            Some(i) => i < tally_entries(*map).len() && tally_entries(*map)[i as int].0 == key,
            None => forall|i: int|
                0 <= i < tally_entries(*map).len() ==> (#[trigger] tally_entries(*map)[i]).0
                    != key,
        },
{
    map.get_index_of(&key)
}

/// `IndexMap::get_index`, with the pair copied out.
///
/// Trusted: the pair at the place, `None` past the end.
#[verifier::external_body]
fn tally_at(map: &IndexMap<u64, (usize, usize), RandomState>, index: usize) -> (pair: Option<
    (u64, (usize, usize)),
>)
    ensures
        index < tally_entries(*map).len() ==> pair == Some(tally_entries(*map)[index as int]),
        index >= tally_entries(*map).len() ==> pair is None,
{
    map.get_index(index).map(|(k, v)| (*k, *v))
}

/// `IndexMap::insert`.
///
/// Trusted: where a pair has the key, it keeps its place and takes the new
/// value; where none has, the new pair comes last.
#[verifier::external_body]
fn tally_insert(map: &mut IndexMap<u64, (usize, usize), RandomState>, key: u64, value: (usize, usize))
    ensures
        has_key(tally_entries(*old(map)), key) ==> exists|i: int|
            0 <= i < tally_entries(*old(map)).len() && (#[trigger] tally_entries(*old(map))[i]).0
                == key && tally_entries(*final(map)) == tally_entries(*old(map)).update(
                i,
                (key, value),
            ),
        !has_key(tally_entries(*old(map)), key) ==> tally_entries(*final(map)) == tally_entries(
            *old(map),
        ).push((key, value)),
{
    map.insert(key, value);
}

/// Some pair has the key.
pub open spec fn has_key(entries: Seq<(u64, (usize, usize))>, key: u64) -> bool {
    exists|i: int| 0 <= i < entries.len() && (#[trigger] entries[i]).0 == key
}

/// The place of a pair with the key.
pub open spec fn key_place(entries: Seq<(u64, (usize, usize))>, key: u64) -> int {
    choose|i: int| 0 <= i < entries.len() && (#[trigger] entries[i]).0 == key
}

/// No two pairs share a key.
pub open spec fn distinct_keys(entries: Seq<(u64, (usize, usize))>) -> bool {
    forall|i: int, j: int|
        0 <= i < entries.len() && 0 <= j < entries.len() && i != j ==> (#[trigger] entries[i]).0 != (
        #[trigger] entries[j]).0
}

/// The tally of the first `upto` prediction hashes: a hash equal to `skip` is
/// passed over; a hash seen before counts one more; a new hash comes last,
/// with the place of its candidate and a count of one.
pub open spec fn tallied(hashes: Seq<u64>, skip: u64, upto: int) -> Seq<(u64, (usize, usize))>
    decreases upto,
{
    if upto <= 0 {
        Seq::empty()
    } else {
        let prev = tallied(hashes, skip, upto - 1);
        let h = hashes[upto - 1];
        if h == skip {
            prev
        } else if has_key(prev, h) {
            let i = key_place(prev, h);
            prev.update(i, (h, (prev[i].1.0, (prev[i].1.1 + 1) as usize)))
        } else {
            prev.push((h, ((upto - 1) as usize, 1usize)))
        }
    }
}

/// The counts of a tally, as keys for ranking.
pub open spec fn counts_of(entries: Seq<(u64, (usize, usize))>) -> Seq<i64> {
    entries.map_values(|e: (u64, (usize, usize))| e.1.1 as i64)
}

/// Counts the predictions by hash.
fn tally(hashes: &Vec<u64>, skip: u64) -> (map: IndexMap<u64, (usize, usize), RandomState>)
    ensures
        tally_entries(map) == tallied(hashes@, skip, hashes@.len() as int),
        distinct_keys(tally_entries(map)),
        forall|i: int|
            0 <= i < tally_entries(map).len() ==> (#[trigger] tally_entries(map)[i]).1.0
                < hashes@.len() && 1 <= tally_entries(map)[i].1.1 <= hashes@.len(),
{
    let mut map = tally_new();
    let mut i: usize = 0;
    while i < hashes.len()
        invariant
            i <= hashes.len(),
            tally_entries(map) == tallied(hashes@, skip, i as int),
            distinct_keys(tally_entries(map)),
            forall|p: int|
                0 <= p < tally_entries(map).len() ==> (#[trigger] tally_entries(map)[p]).1.0 < i
                    && 1 <= tally_entries(map)[p].1.1 <= i,
        decreases hashes.len() - i,
    {
        let h: u64 = hashes[i];
        let ghost prev = tally_entries(map);
        if h != skip {
            match tally_index_of(&map, h) {
                Some(p) => {
                    assert(has_key(prev, h));
                    assert(key_place(prev, h) == p);
                    let pair = tally_at(&map, p);
                    let (first, count) = pair.unwrap().1;
                    tally_insert(&mut map, h, (first, count + 1));
                    proof {
                        let q = choose|q: int|
                            0 <= q < prev.len() && (#[trigger] prev[q]).0 == h && tally_entries(map)
                                == prev.update(q, (h, (first, (count + 1) as usize)));
                        assert(q == p);
                        let now = tally_entries(map);
                        assert forall|a: int, b: int|
                            0 <= a < now.len() && 0 <= b < now.len() && a != b implies (
                        #[trigger] now[a]).0 != (#[trigger] now[b]).0 by {
                            assert(now[a].0 == prev[a].0);
                            assert(now[b].0 == prev[b].0);
                        }
                    }
                },
                None => {
                    assert(!has_key(prev, h));
                    tally_insert(&mut map, h, (i, 1));
                    proof {
                        let now = tally_entries(map);
                        assert forall|a: int, b: int|
                            0 <= a < now.len() && 0 <= b < now.len() && a != b implies (
                        #[trigger] now[a]).0 != (#[trigger] now[b]).0 by {
                            if a < prev.len() {
                                assert(now[a] == prev[a]);
                            }
                            if b < prev.len() {
                                assert(now[b] == prev[b]);
                            }
                        }
                    }
                },
            }
        }
        i += 1;
    }
    map
}

/// The candidates that stay after a majority vote over their predictions, as
/// places in the list of candidates.
///
/// `pred_hashes` holds the hash of each candidate's prediction and
/// `grid_hash` that of the input, which is no vote. Where nothing was
/// voted for, the first `k` candidates stay. Otherwise the tally is ranked by
/// descending count, earlier entries first among equal counts, and for each
/// of the first `k` entries the first candidate that voted for it stays.
pub fn vote(pred_hashes: &Vec<u64>, grid_hash: u64, k: usize) -> (kept: Vec<usize>)
    requires
        pred_hashes@.len() <= i64::MAX,
    ensures
        ({
            let entries = tallied(pred_hashes@, grid_hash, pred_hashes@.len() as int);
            let n = pred_hashes@.len();
            &&& entries.len() == 0 ==> kept@ == ascending(if k < n { k as nat } else { n })
            &&& entries.len() > 0 ==> kept@.len() == (if k < entries.len() {
                k as int
            } else {
                entries.len() as int
            }) && exists|rank: Seq<usize>|
                #[trigger] is_stable_rank(counts_of(entries), true, rank) && forall|r: int|
                    0 <= r < kept@.len() ==> #[trigger] kept@[r] == entries[rank[r] as int].1.0
        }),
        forall|r: int| 0 <= r < kept@.len() ==> #[trigger] kept@[r] < pred_hashes@.len(),
{
    let map = tally(pred_hashes, grid_hash);
    let len: usize = tally_len(&map);
    let ghost entries = tally_entries(map);
    let mut kept: Vec<usize> = Vec::new();
    if len == 0 {
        let n: usize = pred_hashes.len();
        let take: usize = if k < n { k } else { n };
        let mut i: usize = 0;
        while i < take
            invariant
                i <= take <= n,
                n == pred_hashes@.len(),
                kept@.len() == i,
                forall|j: int| 0 <= j < i ==> #[trigger] kept@[j] == j as usize,
            decreases take - i,
        {
            kept.push(i);
            i += 1;
        }
        assert(kept@ =~= ascending(take as nat));
        return kept;
    }
    let mut counts: Vec<i64> = Vec::new();
    let mut firsts: Vec<usize> = Vec::new();
    let mut p: usize = 0;
    while p < len
        invariant
            p <= len,
            len == entries.len(),
            entries == tally_entries(map),
            pred_hashes@.len() <= i64::MAX,
            forall|i: int|
                0 <= i < entries.len() ==> (#[trigger] entries[i]).1.0 < pred_hashes@.len() && 1
                    <= entries[i].1.1 <= pred_hashes@.len(),
            counts@.len() == p,
            firsts@.len() == p,
            forall|i: int| 0 <= i < p ==> #[trigger] counts@[i] == entries[i].1.1 as i64,
            forall|i: int| 0 <= i < p ==> #[trigger] firsts@[i] == entries[i].1.0,
        decreases len - p,
    {
        let pair = tally_at(&map, p);
        let (first, count) = pair.unwrap().1;
        assert(entries[p as int].1.1 == count);
        counts.push(count as i64);
        firsts.push(first);
        p += 1;
    }
    assert(counts@ =~= counts_of(entries));
    let rank = stable_rank(&counts, true);
    let take: usize = if k < len { k } else { len };
    let mut r: usize = 0;
    while r < take
        invariant
            r <= take <= len,
            len == entries.len(),
            rank@.len() == len,
            firsts@.len() == len,
            is_stable_rank(counts_of(entries), true, rank@),
            forall|i: int| 0 <= i < len ==> #[trigger] firsts@[i] == entries[i].1.0,
            forall|i: int|
                0 <= i < entries.len() ==> (#[trigger] entries[i]).1.0 < pred_hashes@.len(),
            kept@.len() == r,
            forall|i: int| 0 <= i < r ==> #[trigger] kept@[i] == entries[rank@[i] as int].1.0,
        decreases take - r,
    {
        let place: usize = rank[r];
        kept.push(firsts[place]);
        r += 1;
    }
    kept
}

/// The candidate whose prediction got the most votes, as a place in the list
/// of candidates: the first that voted for the entry with the largest count,
/// the last such entry among equal counts. `None` where nothing was voted
/// for; a prediction with hash `skip` is no vote.
pub fn majority_vote(pred_hashes: &Vec<u64>, skip: u64) -> (winner: Option<usize>)
    ensures
        ({
            let entries = tallied(pred_hashes@, skip, pred_hashes@.len() as int);
            match winner {
                None => entries.len() == 0,
                Some(candidate) => exists|best: int|
                    0 <= best < entries.len() && candidate == (#[trigger] entries[best]).1.0
                        && candidate < pred_hashes@.len() && (forall|i: int|
                        0 <= i < entries.len() ==> (#[trigger] entries[i]).1.1
                            <= entries[best].1.1) && (forall|i: int|
                        best < i < entries.len() ==> (#[trigger] entries[i]).1.1
                            < entries[best].1.1),
            }
        }),
{
    let map = tally(pred_hashes, skip);
    let len: usize = tally_len(&map);
    let ghost entries = tally_entries(map);
    if len == 0 {
        return None;
    }
    let mut counts: Vec<usize> = Vec::new();
    let mut p: usize = 0;
    while p < len
        invariant
            p <= len,
            len == entries.len(),
            entries == tally_entries(map),
            counts@.len() == p,
            forall|i: int| 0 <= i < p ==> #[trigger] counts@[i] == entries[i].1.1,
        decreases len - p,
    {
        let pair = tally_at(&map, p);
        counts.push(pair.unwrap().1.1);
        p += 1;
    }
    let best: usize = majority_index(&counts);
    let pair = tally_at(&map, best);
    let first: usize = pair.unwrap().1.0;
    proof {
        assert(first == entries[best as int].1.0);
        assert forall|i: int| 0 <= i < entries.len() implies (#[trigger] entries[i]).1.1
            <= entries[best as int].1.1 by {
            assert(counts@[i] == entries[i].1.1);
        }
        assert forall|i: int| best < i < entries.len() implies (#[trigger] entries[i]).1.1
            < entries[best as int].1.1 by {
            assert(counts@[i] == entries[i].1.1);
        }
    }
    Some(first)
}

} // verus!
