//! Order statistics of small samples: sorting and the k-th smallest value.

use vstd::prelude::*;

verus! {

/// How many elements of `s` are smaller than `v`.
pub open spec fn count_below(s: Seq<usize>, v: usize) -> nat
    decreases s.len(),
{
    if s.len() == 0 {
        0
    } else {
        count_below(s.drop_last(), v) + if s.last() < v {
            1nat
        } else {
            0nat
        }
    }
}

/// How many elements of `s` are at most `v`.
pub open spec fn count_at_most(s: Seq<usize>, v: usize) -> nat
    decreases s.len(),
{
    if s.len() == 0 {
        0
    } else {
        count_at_most(s.drop_last(), v) + if s.last() <= v {
            1nat
        } else {
            0nat
        }
    }
}

/// `v` is the element of rank `k` (counting from 0) of `s` in ascending order:
/// fewer than `k + 1` elements are smaller and more than `k` are at most `v`.
pub open spec fn is_kth_smallest(s: Seq<usize>, k: int, v: usize) -> bool {
    count_below(s, v) <= k < count_at_most(s, v)
}

/// The element of rank `k` of `s` in ascending order (for `0 <= k < s.len()`).
pub open spec fn kth_smallest(s: Seq<usize>, k: int) -> usize {
    choose|v: usize| is_kth_smallest(s, k, v)
}

/// `s` is in ascending order.
pub open spec fn ascending(s: Seq<usize>) -> bool {
    forall|i: int, j: int| 0 <= i <= j < s.len() ==> s[i] <= s[j]
}

pub proof fn lemma_counts_concat(a: Seq<usize>, b: Seq<usize>, v: usize)
    ensures
        count_below(a + b, v) == count_below(a, v) + count_below(b, v),
        count_at_most(a + b, v) == count_at_most(a, v) + count_at_most(b, v),
    decreases b.len(),
{
    if b.len() > 0 {
        assert((a + b).drop_last() =~= a + b.drop_last());
        lemma_counts_concat(a, b.drop_last(), v);
    } else {
        assert(a + b =~= a);
    }
}

pub proof fn lemma_counts_bounded(s: Seq<usize>, v: usize)
    ensures
        count_below(s, v) <= count_at_most(s, v) <= s.len(),
    decreases s.len(),
{
    if s.len() > 0 {
        lemma_counts_bounded(s.drop_last(), v);
    }
}

proof fn lemma_counts_all_at_least(s: Seq<usize>, v: usize)
    requires
        forall|i: int| 0 <= i < s.len() ==> s[i] >= v,
    ensures
        count_below(s, v) == 0,
    decreases s.len(),
{
    if s.len() > 0 {
        lemma_counts_all_at_least(s.drop_last(), v);
    }
}

proof fn lemma_counts_all_at_most(s: Seq<usize>, v: usize)
    requires
        forall|i: int| 0 <= i < s.len() ==> s[i] <= v,
    ensures
        count_at_most(s, v) == s.len(),
    decreases s.len(),
{
    if s.len() > 0 {
        lemma_counts_all_at_most(s.drop_last(), v);
    }
}

proof fn lemma_counts_monotone(s: Seq<usize>, v1: usize, v2: usize)
    requires
        v1 < v2,
    ensures
        count_at_most(s, v1) <= count_below(s, v2),
    decreases s.len(),
{
    if s.len() > 0 {
        lemma_counts_monotone(s.drop_last(), v1, v2);
    }
}

/// At most one value has a given rank.
pub proof fn lemma_kth_unique(s: Seq<usize>, k: int, v1: usize, v2: usize)
    requires
        is_kth_smallest(s, k, v1),
        is_kth_smallest(s, k, v2),
    ensures
        v1 == v2,
{
    if v1 < v2 {
        lemma_counts_monotone(s, v1, v2);
    } else if v2 < v1 {
        lemma_counts_monotone(s, v2, v1);
    }
}

/// In an ascending sequence, the element at position `k` has rank `k`.
proof fn lemma_ascending_kth(s: Seq<usize>, k: int)
    requires
        ascending(s),
        0 <= k < s.len(),
    ensures
        is_kth_smallest(s, k, s[k]),
{
    let v = s[k];
    let lo = s.subrange(0, k);
    let hi = s.subrange(k, s.len() as int);
    assert(s =~= lo + hi);
    lemma_counts_concat(lo, hi, v);
    lemma_counts_all_at_least(hi, v);
    lemma_counts_bounded(lo, v);
    let lo1 = s.subrange(0, k + 1);
    let hi1 = s.subrange(k + 1, s.len() as int);
    assert(s =~= lo1 + hi1);
    lemma_counts_concat(lo1, hi1, v);
    lemma_counts_all_at_most(lo1, v);
}

/// Sorts `v` into ascending order by insertion.
pub fn sort_ascending(v: &Vec<usize>) -> (r: Vec<usize>)
    ensures
        ascending(r@),
        r@.len() == v@.len(),
        forall|x: usize|
            count_below(r@, x) == count_below(v@, x) && count_at_most(r@, x) == count_at_most(
                v@,
                x,
            ),
{
    let mut r: Vec<usize> = Vec::new();
    let mut i: usize = 0;
    while i < v.len()
        invariant
            i <= v@.len(),
            r@.len() == i,
            ascending(r@),
            forall|x: usize|
                count_below(r@, x) == count_below(v@.subrange(0, i as int), x) && count_at_most(
                    r@,
                    x,
                ) == count_at_most(v@.subrange(0, i as int), x),
        decreases v.len() - i,
    {
        let x = v[i];
        let mut p: usize = 0;
        while p < r.len() && r[p] <= x
            invariant
                p <= r@.len(),
                forall|j: int| 0 <= j < p ==> r@[j] <= x,
            decreases r.len() - p,
        {
            p = p + 1;
        }
        let ghost old_r = r@;
        r.insert(p, x);
        proof {
            assert(r@ =~= old_r.subrange(0, p as int) + seq![x] + old_r.subrange(
                p as int,
                old_r.len() as int,
            ));
            assert forall|a: int, b: int| 0 <= a <= b < r@.len() implies r@[a] <= r@[b] by {
                if a < p && b < p {
                } else if a < p && b == p {
                } else if a < p && b > p {
                    assert(r@[b] == old_r[b - 1]);
                } else if a == p && b > p {
                    assert(r@[b] == old_r[b - 1]);
                    assert(old_r[p as int] > x);
                } else if a > p {
                    assert(r@[a] == old_r[a - 1]);
                    assert(r@[b] == old_r[b - 1]);
                }
            }
            let pre = v@.subrange(0, i as int);
            let nxt = v@.subrange(0, i + 1);
            assert(nxt =~= pre + seq![x]);
            assert forall|y: usize|
                count_below(r@, y) == count_below(nxt, y) && count_at_most(r@, y)
                    == count_at_most(nxt, y) by {
                let a = old_r.subrange(0, p as int);
                let b = old_r.subrange(p as int, old_r.len() as int);
                assert(old_r =~= a + b);
                lemma_counts_concat(a, b, y);
                lemma_counts_concat(a + seq![x], b, y);
                lemma_counts_concat(a, seq![x], y);
                lemma_counts_concat(pre, seq![x], y);
                assert(seq![x].drop_last() =~= Seq::<usize>::empty());
            }
        }
        i = i + 1;
    }
    assert(v@.subrange(0, v@.len() as int) =~= v@);
    r
}

/// The element of rank `k` of `v` in ascending order.
pub fn kth_smallest_of(v: &Vec<usize>, k: usize) -> (r: usize)
    requires
        k < v@.len(),
    ensures
        is_kth_smallest(v@, k as int, r),
        r == kth_smallest(v@, k as int),
{
    let sorted = sort_ascending(v);
    let r = sorted[k];
    proof {
        lemma_ascending_kth(sorted@, k as int);
        assert(is_kth_smallest(v@, k as int, r));
        lemma_kth_unique(v@, k as int, r, kth_smallest(v@, k as int));
    }
    r
}

} // verus!
