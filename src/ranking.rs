//! Ranking of nodes by a score key: highest key first, equal keys in order
//! of node index (that is, of insertion).
use vstd::prelude::*;

verus! {

/// Node `a` comes before node `b` when ranked by `keys`: it has the higher
/// key, or the same key and the lower index.
pub open spec fn precedes(keys: Seq<u64>, a: usize, b: usize) -> bool {
    keys[a as int] > keys[b as int] || (keys[a as int] == keys[b as int] && a < b)
}

/// Every element of `r` lies in `lo..hi`, and each comes before all that
/// follow it.
pub open spec fn ranked_within(keys: Seq<u64>, r: Seq<usize>, lo: int, hi: int) -> bool {
    &&& forall|i: int| 0 <= i < r.len() ==> lo <= #[trigger] r[i] < hi
    &&& forall|i: int, j: int|
        0 <= i < j < r.len() ==> precedes(keys, #[trigger] r[i], #[trigger] r[j])
}

/// `r` is the ranking of the nodes `0..keys.len()` by `keys`: it lists each
/// of them once, highest key first, equal keys in index order.
pub open spec fn is_ranking(keys: Seq<u64>, r: Seq<usize>) -> bool {
    &&& r.len() == keys.len()
    &&& ranked_within(keys, r, 0, keys.len() as int)
}

/// A ranking lists keys in non-increasing order, and equal keys in
/// increasing index order.
pub proof fn lemma_ranking_non_increasing(keys: Seq<u64>, r: Seq<usize>)
    requires
        is_ranking(keys, r),
    ensures
        forall|i: int, j: int|
            0 <= i < j < r.len() ==> keys[#[trigger] r[i] as int] >= keys[#[trigger] r[j] as int],
        forall|i: int, j: int|
            0 <= i < j < r.len() && keys[r[i] as int] == keys[r[j] as int] ==> #[trigger] r[i]
                < #[trigger] r[j],
{
    assert forall|i: int, j: int| 0 <= i < j < r.len() implies keys[#[trigger] r[i] as int]
        >= keys[#[trigger] r[j] as int] by {
        assert(precedes(keys, r[i], r[j]));
    }
}

/// `r` holds `x` at some position.
spec fn lists(r: Seq<usize>, x: int) -> bool {
    exists|k: int| 0 <= k < r.len() && r[k] == x
}

/// A ranking lists every node.
proof fn lemma_ranking_covers(keys: Seq<u64>, r: Seq<usize>)
    requires
        is_ranking(keys, r),
    ensures
        forall|x: int| 0 <= x < keys.len() ==> #[trigger] lists(r, x),
{
    let ri = r.map_values(|v: usize| v as int);
    let range = vstd::set_lib::set_int_range(0, keys.len() as int);
    assert forall|i: int, j: int| 0 <= i < ri.len() && 0 <= j < ri.len() && i != j implies #[trigger] ri[i]
        != #[trigger] ri[j] by {
        if i < j {
            assert(precedes(keys, r[i], r[j]));
        } else {
            assert(precedes(keys, r[j], r[i]));
        }
    }
    assert(ri.no_duplicates());
    ri.unique_seq_to_set();
    vstd::set_lib::lemma_int_range(0, keys.len() as int);
    assert forall|x: int| #[trigger] ri.to_set().contains(x) implies range.contains(x) by {
        let k = choose|k: int| 0 <= k < ri.len() && ri[k] == x;
        assert(0 <= r[k] < keys.len());
    }
    vstd::seq_lib::seq_to_set_is_finite(ri);
    vstd::set_lib::lemma_subset_equality(ri.to_set(), range);
    assert forall|x: int| 0 <= x < keys.len() implies #[trigger] lists(r, x) by {
        assert(range.contains(x));
        assert(ri.to_set().contains(x));
        let k = choose|k: int| 0 <= k < ri.len() && ri[k] == x;
        assert(r[k] == x);
    }
}

/// Two rankings of the same keys agree on their first `p` positions.
proof fn lemma_ranking_prefix(keys: Seq<u64>, r1: Seq<usize>, r2: Seq<usize>, p: int)
    requires
        is_ranking(keys, r1),
        is_ranking(keys, r2),
        0 <= p <= r1.len(),
    ensures
        forall|k: int| 0 <= k < p ==> #[trigger] r1[k] == r2[k],
    decreases p,
{
    if p > 0 {
        let c = p - 1;
        lemma_ranking_prefix(keys, r1, r2, c);
        lemma_ranking_covers(keys, r1);
        lemma_ranking_covers(keys, r2);
        let a = r1[c];
        let b = r2[c];
        if a != b {
            assert(lists(r1, b as int) && lists(r2, a as int));
            let q = choose|k: int| 0 <= k < r1.len() && #[trigger] r1[k] == b as int;
            let q2 = choose|k: int| 0 <= k < r2.len() && #[trigger] r2[k] == a as int;
            if q < c {
                assert(r2[q] == b);
                assert(precedes(keys, r2[q], r2[c]));
            } else if q2 < c {
                assert(r1[q2] == a);
                assert(precedes(keys, r1[q2], r1[c]));
            } else {
                assert(precedes(keys, r1[c], r1[q]));
                assert(precedes(keys, r2[c], r2[q2]));
            }
        }
    }
}

/// The ranking of a sequence of keys is unique: whatever computes one
/// returns the same sequence every time it is given the same keys.
pub proof fn lemma_ranking_unique(keys: Seq<u64>, r1: Seq<usize>, r2: Seq<usize>)
    requires
        is_ranking(keys, r1),
        is_ranking(keys, r2),
    ensures
        r1 == r2,
{
    lemma_ranking_prefix(keys, r1, r2, r1.len() as int);
    assert(r1 =~= r2);
}

/// Merges two rankings of disjoint index ranges into one.
fn merge(keys: &Vec<u64>, a: &Vec<usize>, b: &Vec<usize>, lo: Ghost<int>, mid: Ghost<int>, hi: Ghost<int>) -> (r: Vec<usize>)
    requires
        0 <= lo@ <= mid@ <= hi@ <= keys@.len(),
        ranked_within(keys@, a@, lo@, mid@),
        ranked_within(keys@, b@, mid@, hi@),
        a@.len() + b@.len() <= usize::MAX,
    ensures
        r@.len() == a@.len() + b@.len(),
        ranked_within(keys@, r@, lo@, hi@),
{
    let mut out: Vec<usize> = Vec::new();
    let mut i: usize = 0;
    let mut j: usize = 0;
    while i < a.len() || j < b.len()
        invariant
            i <= a@.len(),
            j <= b@.len(),
            out@.len() == i + j,
            0 <= lo@ <= mid@ <= hi@ <= keys@.len(),
            ranked_within(keys@, a@, lo@, mid@),
            ranked_within(keys@, b@, mid@, hi@),
            a@.len() + b@.len() <= usize::MAX,
            ranked_within(keys@, out@, lo@, hi@),
            out@.len() > 0 && i < a@.len() ==> precedes(keys@, out@.last(), a@[i as int]),
            out@.len() > 0 && j < b@.len() ==> precedes(keys@, out@.last(), b@[j as int]),
        decreases a@.len() + b@.len() - i - j,
    {
        let take_a = if j >= b.len() {
            true
        } else if i >= a.len() {
            false
        } else {
            let x = a[i];
            let y = b[j];
            keys[x] > keys[y] || (keys[x] == keys[y] && x < y)
        };
        let ghost before = out@;
        let next = if take_a {
            a[i]
        } else {
            b[j]
        };
        proof {
            if !take_a && i < a@.len() {
                assert(a@[i as int] < mid@ && mid@ <= b@[j as int]);
            }
        }
        out.push(next);
        assert forall|p: int, q: int|
            0 <= p < q < out@.len() implies precedes(keys@, #[trigger] out@[p], #[trigger] out@[q]) by {
            if q == before.len() && p < before.len() - 1 {
                assert(precedes(keys@, before[p], before.last()));
            }
        }
        if take_a {
            i += 1;
            proof {
                if i < a@.len() {
                    assert(precedes(keys@, a@[i - 1], a@[i as int]));
                }
            }
        } else {
            j += 1;
            proof {
                if j < b@.len() {
                    assert(precedes(keys@, b@[j - 1], b@[j as int]));
                }
            }
        }
    }
    out
}

/// Ranks the nodes `lo..hi` by `keys`.
fn rank_range(keys: &Vec<u64>, lo: usize, hi: usize) -> (r: Vec<usize>)
    requires
        lo <= hi <= keys@.len(),
    ensures
        r@.len() == hi - lo,
        ranked_within(keys@, r@, lo as int, hi as int),
    decreases hi - lo,
{
    if hi - lo <= 1 {
        let mut r: Vec<usize> = Vec::new();
        if hi > lo {
            r.push(lo);
        }
        r
    } else {
        let mid = lo + (hi - lo) / 2;
        let left = rank_range(keys, lo, mid);
        let right = rank_range(keys, mid, hi);
        merge(keys, &left, &right, Ghost(lo as int), Ghost(mid as int), Ghost(hi as int))
    }
}

/// The indices `0..keys.len()` ordered by `keys`: highest key first, equal
/// keys in index order.
pub fn rank_order(keys: &Vec<u64>) -> (r: Vec<usize>)
    ensures
        is_ranking(keys@, r@),
{
    rank_range(keys, 0, keys.len())
}

} // verus!
