//! Percentiles of a list of scores.

use crate::score::{percentile_index, percentile_rank, rank, score_rank};
use vstd::prelude::*;

verus! {

/// A sorted list with one more score put in: behind every score that is not
/// above it, so that scores of the same rank keep the order they came in.
pub open spec fn insert_ranked(sorted: Seq<u64>, x: u64) -> Seq<u64>
    decreases sorted.len(),
{
    if sorted.len() == 0 {
        seq![x]
    } else if score_rank(sorted.last()) <= score_rank(x) {
        sorted.push(x)
    } else {
        insert_ranked(sorted.drop_last(), x).push(sorted.last())
    }
}

/// The scores in ascending order; scores of the same rank stay in the order
/// of the list (a stable sort).
pub open spec fn ranked(scores: Seq<u64>) -> Seq<u64>
    decreases scores.len(),
{
    if scores.len() == 0 {
        Seq::empty()
    } else {
        insert_ranked(ranked(scores.drop_last()), scores.last())
    }
}

/// Whether the ranks of a list never fall from one index to the next.
pub open spec fn ascending(scores: Seq<u64>) -> bool {
    forall|i: int, j: int|
        0 <= i <= j < scores.len() ==> score_rank(#[trigger] scores[i]) <= score_rank(
            #[trigger] scores[j],
        )
}

/// The percentile of a list of scores: `None` of an empty list, else the
/// score that stands at the percentile's index in the sorted list, or the
/// last one where the index is the length.
pub open spec fn percentile_of(scores: Seq<u64>, percentile: u64) -> Option<u64> {
    if scores.len() == 0 {
        None
    } else {
        let index = percentile_rank(scores.len(), percentile);
        if index < scores.len() {
            Some(ranked(scores)[index as int])
        } else {
            Some(ranked(scores).last())
        }
    }
}

/// Where `x` goes in a sorted list: `insert_ranked` puts it at index `at` if
/// every score from there on is above it and the one before is not.
proof fn lemma_insert_position(sorted: Seq<u64>, x: u64, at: int)
    requires
        0 <= at <= sorted.len(),
        forall|k: int| at <= k < sorted.len() ==> score_rank(sorted[k]) > score_rank(x),
        at > 0 ==> score_rank(sorted[at - 1]) <= score_rank(x),
    ensures
        insert_ranked(sorted, x) == sorted.insert(at, x),
    decreases sorted.len(),
{
    if sorted.len() == 0 {
        assert(sorted.insert(at, x) =~= seq![x]);
    } else if at == sorted.len() {
        assert(sorted.insert(at, x) =~= sorted.push(x));
    } else {
        lemma_insert_position(sorted.drop_last(), x, at);
        assert(sorted.insert(at, x) =~= sorted.drop_last().insert(at, x).push(sorted.last()));
    }
}

/// Putting a score into an ascending list leaves it ascending, one longer,
/// and with that one score more.
pub proof fn lemma_insert_ranked(sorted: Seq<u64>, x: u64)
    requires
        ascending(sorted),
    ensures
        ascending(insert_ranked(sorted, x)),
        insert_ranked(sorted, x).len() == sorted.len() + 1,
        insert_ranked(sorted, x).to_multiset() == sorted.to_multiset().insert(x),
    decreases sorted.len(),
{
    broadcast use vstd::seq_lib::group_to_multiset_ensures;

    if sorted.len() == 0 {
        assert(seq![x] =~= Seq::<u64>::empty().push(x));
        assert(sorted =~= Seq::<u64>::empty());
    } else if score_rank(sorted.last()) <= score_rank(x) {
    } else {
        let front = sorted.drop_last();
        lemma_insert_ranked(front, x);
        let placed = insert_ranked(front, x);
        assert(sorted =~= front.push(sorted.last()));
        assert forall|i: int| 0 <= i < placed.len() implies score_rank(#[trigger] placed[i])
            <= score_rank(sorted.last()) by {
            assert(placed.to_multiset().count(placed[i]) > 0);
            if placed[i] != x {
                assert(front.to_multiset().count(placed[i]) > 0);
                assert(front.contains(placed[i]));
            }
        }
        assert(placed.push(sorted.last()).to_multiset() =~= sorted.to_multiset().insert(x));
    }
}

/// The sorted list is ascending, as long as the list, and holds the same
/// scores as often.
pub proof fn lemma_ranked(scores: Seq<u64>)
    ensures
        ascending(ranked(scores)),
        ranked(scores).len() == scores.len(),
        ranked(scores).to_multiset() == scores.to_multiset(),
    decreases scores.len(),
{
    broadcast use vstd::seq_lib::group_to_multiset_ensures;

    if scores.len() == 0 {
        assert(scores =~= Seq::<u64>::empty());
    } else {
        lemma_ranked(scores.drop_last());
        lemma_insert_ranked(ranked(scores.drop_last()), scores.last());
        assert(scores =~= scores.drop_last().push(scores.last()));
    }
}

/// The ranks of a list of scores, index by index.
pub open spec fn ranks_of(scores: Seq<u64>) -> Seq<u64> {
    scores.map_values(|x: u64| score_rank(x))
}

/// Two lists that hold the same scores as often hold the same ranks as often.
proof fn lemma_ranks_of_permutation(a: Seq<u64>, b: Seq<u64>)
    requires
        a.to_multiset() == b.to_multiset(),
    ensures
        ranks_of(a).to_multiset() == ranks_of(b).to_multiset(),
    decreases a.len(),
{
    broadcast use vstd::seq_lib::group_to_multiset_ensures;

    vstd::seq_lib::to_multiset_len(a);
    vstd::seq_lib::to_multiset_len(b);
    if a.len() == 0 {
        assert(b.len() == 0);
        assert(ranks_of(a) =~= ranks_of(b));
    } else {
        let x = a.last();
        let front = a.drop_last();
        assert(a =~= front.push(x));
        assert(a.to_multiset().count(x) > 0);
        assert(b.to_multiset().count(x) > 0);
        assert(b.contains(x));
        let i = choose|i: int| 0 <= i < b.len() && b[i] == x;
        let rest = b.remove(i);
        vstd::seq_lib::to_multiset_remove(b, i);
        assert(front.to_multiset() =~= a.to_multiset().remove(x));
        assert(rest.to_multiset() =~= front.to_multiset());
        lemma_ranks_of_permutation(front, rest);
        assert(ranks_of(a) =~= ranks_of(front).push(score_rank(x)));
        assert(ranks_of(b) =~= ranks_of(rest).insert(i, score_rank(x)));
        vstd::seq_lib::to_multiset_insert(ranks_of(rest), i, score_rank(x));
    }
}

/// The percentile of a list does not depend on the order of the list: two
/// lists that hold the same scores as often have the same percentile, as a
/// number. (Where both zeros, or several NaN patterns, are in the list, the
/// pattern that comes out may be another one of the same rank.)
pub proof fn lemma_percentile_order_invariant(a: Seq<u64>, b: Seq<u64>, percentile: u64)
    requires
        a.to_multiset() == b.to_multiset(),
    ensures
        percentile_of(a, percentile) is Some <==> percentile_of(b, percentile) is Some,
        percentile_of(a, percentile) is Some ==> score_rank(percentile_of(a, percentile)->0)
            == score_rank(percentile_of(b, percentile)->0),
{
    broadcast use vstd::seq_lib::group_to_multiset_ensures;

    lemma_ranked(a);
    lemma_ranked(b);
    vstd::seq_lib::to_multiset_len(a);
    vstd::seq_lib::to_multiset_len(b);
    assert(a.len() == b.len());
    let ra = ranks_of(ranked(a));
    let rb = ranks_of(ranked(b));
    lemma_ranks_of_permutation(ranked(a), ranked(b));
    let leq = |x: u64, y: u64| x <= y;
    assert(vstd::relations::sorted_by(ra, leq)) by {
        assert forall|i: int, j: int| 0 <= i < j < ra.len() implies #[trigger] leq(ra[i], ra[j]) by {
            assert(score_rank(ranked(a)[i]) <= score_rank(ranked(a)[j]));
        }
    }
    assert(vstd::relations::sorted_by(rb, leq)) by {
        assert forall|i: int, j: int| 0 <= i < j < rb.len() implies #[trigger] leq(rb[i], rb[j]) by {
            assert(score_rank(ranked(b)[i]) <= score_rank(ranked(b)[j]));
        }
    }
    assert(vstd::relations::total_ordering(leq));
    vstd::seq_lib::lemma_sorted_unique(ra, rb, leq);
    if a.len() > 0 {
        let index = percentile_rank(a.len(), percentile);
        let k = if index < a.len() { index as int } else { a.len() - 1 };
        assert(ra[k] == score_rank(ranked(a)[k]));
        assert(rb[k] == score_rank(ranked(b)[k]));
    }
}

/// Sorts scores in ascending order, stably.
pub fn sort_scores(scores: &[u64]) -> (sorted: Vec<u64>)
    ensures
        sorted@ == ranked(scores@),
        sorted@.len() == scores@.len(),
{
    let mut sorted: Vec<u64> = Vec::new();
    let n = scores.len();
    let mut i: usize = 0;
    assert(scores@.take(0) =~= Seq::<u64>::empty());
    while i < n
        invariant
            i <= n,
            n == scores@.len(),
            sorted@ == ranked(scores@.take(i as int)),
            sorted@.len() == i,
        decreases n - i,
    {
        let x = scores[i];
        let key = rank(x);
        proof {
            lemma_ranked(scores@.take(i as int));
        }
        // The place of `x`: behind the last score that is not above it.
        let mut at: usize = 0;
        let mut end: usize = sorted.len();
        while at < end
            invariant
                at <= end <= sorted@.len(),
                key == score_rank(x),
                ascending(sorted@),
                forall|k: int| 0 <= k < at ==> score_rank(sorted@[k]) <= score_rank(x),
                forall|k: int| end <= k < sorted@.len() ==> score_rank(sorted@[k]) > score_rank(x),
            decreases end - at,
        {
            let mid = at + (end - at) / 2;
            if rank(sorted[mid]) <= key {
                at = mid + 1;
            } else {
                end = mid;
            }
        }
        proof {
            lemma_insert_position(sorted@, x, at as int);
            assert(scores@.take(i + 1).drop_last() =~= scores@.take(i as int));
            assert(scores@.take(i + 1).last() == x);
        }
        sorted.insert(at, x);
        i += 1;
    }
    assert(scores@.take(n as int) =~= scores@);
    sorted
}

/// Calculates the given percentile (a binary64 bit pattern, as the scores
/// are) of an unsorted list of scores; `None` if the list is empty.
pub fn calculate_percentile(scores: &[u64], percentile: u64) -> (value: Option<u64>)
    ensures
        value == percentile_of(scores@, percentile),
{
    if scores.len() == 0 {
        return None;
    }
    let sorted = sort_scores(scores);
    let index = percentile_index(sorted.len(), percentile);
    if index < sorted.len() {
        Some(sorted[index])
    } else {
        Some(sorted[sorted.len() - 1])
    }
}

} // verus!
