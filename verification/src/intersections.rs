//! The candidate corner points are the pairwise intersections of constraint
//! boundary lines; this module fixes which pairs are tried and in what order.

use vstd::prelude::*;

verus! {

/// Pair `p` comes before pair `q` in lexicographic order.
pub open spec fn pair_before(p: (usize, usize), q: (usize, usize)) -> bool {
    p.0 < q.0 || (p.0 == q.0 && p.1 < q.1)
}

/// `pairs` holds every pair `i < j < n`, each once, in lexicographic order.
pub open spec fn lists_all_pairs(n: nat, pairs: Seq<(usize, usize)>) -> bool {
    &&& forall|k: int| 0 <= k < pairs.len() ==> (#[trigger] pairs[k]).0 < pairs[k].1 < n
    &&& forall|a: int, b: int| 0 <= a < b < pairs.len() ==> pair_before(#[trigger] pairs[a], #[trigger] pairs[b])
    &&& forall|i: usize, j: usize| i < j < n ==> #[trigger] pairs.contains((i, j))
    &&& forall|a: int, b: int|
        0 <= a < pairs.len() && 0 <= b < pairs.len() && a != b ==> #[trigger] pairs[a] != #[trigger] pairs[b]
    &&& pairs.len() == n * (n - 1) / 2
}

/// Every unordered pair `(i, j)` with `i < j < n`, each considered exactly
/// once, in the order of a nested loop over `i` and then `j`.
pub fn candidate_pairs(n: usize) -> (pairs: Vec<(usize, usize)>)
    ensures
        lists_all_pairs(n as nat, pairs@),
{
    let mut pairs: Vec<(usize, usize)> = Vec::new();
    assert(0 * (2 * n - 0 - 1) == 0) by (nonlinear_arith);
    for i in 0..n
        invariant
            forall|k: int| 0 <= k < pairs@.len() ==> (#[trigger] pairs@[k]).0 < pairs@[k].1 < n,
            forall|k: int| 0 <= k < pairs@.len() ==> (#[trigger] pairs@[k]).0 < i,
            forall|a: int, b: int|
                0 <= a < b < pairs@.len() ==> pair_before(#[trigger] pairs@[a], #[trigger] pairs@[b]),
            forall|a: usize, b: usize| a < b < n && a < i ==> #[trigger] pairs@.contains((a, b)),
            2 * pairs@.len() == i * (2 * n - i - 1),
    {
        for j in (i + 1)..n
            invariant
                i < n,
                forall|k: int| 0 <= k < pairs@.len() ==> (#[trigger] pairs@[k]).0 < pairs@[k].1 < n,
                forall|k: int|
                    0 <= k < pairs@.len() ==> pair_before(#[trigger] pairs@[k], (i, j)),
                forall|a: int, b: int|
                    0 <= a < b < pairs@.len() ==> pair_before(#[trigger] pairs@[a], #[trigger] pairs@[b]),
                forall|a: usize, b: usize|
                    a < b < n && (a < i || (a == i && b < j)) ==> #[trigger] pairs@.contains((a, b)),
                2 * pairs@.len() == i * (2 * n - i - 1) + 2 * (j - i - 1),
        {
            let ghost before = pairs@;
            pairs.push((i, j));
            proof {
                assert(pairs@[before.len() as int] == (i, j));
                assert forall|a: usize, b: usize|
                    a < b < n && (a < i || (a == i && b < j + 1)) implies #[trigger] pairs@.contains((a, b)) by {
                    if a == i && b == j {
                        assert(pairs@[before.len() as int] == (a, b));
                    } else {
                        assert(before.contains((a, b)));
                        let k = choose|k: int| 0 <= k < before.len() && before[k] == (a, b);
                        assert(pairs@[k] == (a, b));
                    }
                }
            }
        }
        assert(i * (2 * n - i - 1) + 2 * (n - i - 1) == (i + 1) * (2 * n - (i + 1) - 1)) by (nonlinear_arith);
    }
    assert(n * (2 * n - n - 1) == n * (n - 1)) by (nonlinear_arith);
    pairs
}


/// Point `k` lies within tolerance of the later point `m`, where `close[m][k]`
/// records that comparison for each earlier point `k < m` (a missing entry
/// reads as "not close").
pub open spec fn near(close: Seq<Vec<bool>>, k: int, m: int) -> bool {
    0 <= k < close[m]@.len() && close[m]@[k]
}

/// `kept` lists, in increasing order, exactly the points that lie within
/// tolerance of no earlier kept point.
pub open spec fn keeps_first_of_each(close: Seq<Vec<bool>>, kept: Seq<usize>) -> bool {
    &&& forall|a: int, b: int| 0 <= a < b < kept.len() ==> #[trigger] kept[a] < #[trigger] kept[b]
    &&& forall|a: int| 0 <= a < kept.len() ==> #[trigger] kept[a] < close.len()
    &&& forall|m: usize| m < close.len() ==> (#[trigger] kept.contains(m) <==> forall|t: int|
        0 <= t < kept.len() && kept[t] < m ==> !near(close, #[trigger] kept[t] as int, m as int))
}

/// De-duplicate the intersection points found, in the order they were found:
/// a point is kept unless it lies within tolerance of a point already kept
/// (three or more boundary lines through one corner produce that corner more
/// than once).  `close[m][k]` says whether the earlier point `k` is within
/// tolerance of point `m`.  Returns the indices of the kept points.
pub fn keep_first_distinct(close: &Vec<Vec<bool>>) -> (kept: Vec<usize>)
    ensures
        keeps_first_of_each(close@, kept@),
        // no kept point lies within tolerance of an earlier kept point
        forall|a: int, b: int|
            0 <= a < b < kept@.len() ==> !near(close@, #[trigger] kept@[a] as int, #[trigger] kept@[b] as int),
        // every point left out lies within tolerance of an earlier kept point
        forall|m: usize| m < close@.len() && !(#[trigger] kept@.contains(m)) ==> exists|t: int|
            0 <= t < kept@.len() && kept@[t] < m && near(close@, #[trigger] kept@[t] as int, m as int),
        // no more points are kept than were found
        kept@.len() <= close@.len(),
{
    let n = close.len();
    let mut kept: Vec<usize> = Vec::new();
    for m in 0..n
        invariant
            n == close@.len(),
            forall|a: int, b: int| 0 <= a < b < kept@.len() ==> #[trigger] kept@[a] < #[trigger] kept@[b],
            forall|a: int| 0 <= a < kept@.len() ==> #[trigger] kept@[a] < m,
            kept@.len() <= m,
            forall|m2: usize| m2 < m ==> (#[trigger] kept@.contains(m2) <==> forall|t: int|
                0 <= t < kept@.len() && kept@[t] < m2 ==> !near(close@, #[trigger] kept@[t] as int, m2 as int)),
    {
        let row = &close[m];
        let mut already = false;
        let mut t: usize = 0;
        while t < kept.len()
            invariant
                n == close@.len(),
                m < n,
                row@ == close@[m as int]@,
                t <= kept@.len(),
                forall|a: int| 0 <= a < kept@.len() ==> #[trigger] kept@[a] < m,
                already <==> exists|t2: int| 0 <= t2 < t && near(close@, #[trigger] kept@[t2] as int, m as int),
            decreases kept@.len() - t,
        {
            let k = kept[t];
            if k < row.len() && row[k] {
                assert(near(close@, kept@[t as int] as int, m as int));
                already = true;
            }
            t = t + 1;
        }
        let ghost before = kept@;
        if !already {
            kept.push(m);
            proof {
                assert(kept@[before.len() as int] == m);
                assert forall|m2: usize| m2 < m + 1 implies (#[trigger] kept@.contains(m2) <==> forall|t: int|
                    0 <= t < kept@.len() && kept@[t] < m2 ==> !near(close@, #[trigger] kept@[t] as int, m2 as int)) by {
                    assert forall|t: int| 0 <= t < kept@.len() && kept@[t] < m2 implies
                        t < before.len() && kept@[t] == before[t] by {}
                    if m2 < m {
                        if before.contains(m2) {
                            let k = choose|k: int| 0 <= k < before.len() && before[k] == m2;
                            assert(kept@[k] == m2);
                        }
                        if kept@.contains(m2) {
                            let k = choose|k: int| 0 <= k < kept@.len() && kept@[k] == m2;
                            assert(k < before.len());
                            assert(before.contains(m2));
                        }
                        assert((forall|t: int| 0 <= t < kept@.len() && kept@[t] < m2 ==> !near(close@, #[trigger] kept@[t] as int, m2 as int))
                            <==> (forall|t: int| 0 <= t < before.len() && before[t] < m2 ==> !near(close@, #[trigger] before[t] as int, m2 as int)));
                    } else {
                        assert(kept@.contains(m2));
                        assert forall|t: int| 0 <= t < kept@.len() && kept@[t] < m2 implies !near(close@, #[trigger] kept@[t] as int, m2 as int) by {
                            assert(t < before.len());
                            if near(close@, before[t] as int, m as int) {
                                assert(exists|t2: int| 0 <= t2 < before.len() && near(close@, #[trigger] before[t2] as int, m as int));
                            }
                        }
                    }
                }
            }
        } else {
            proof {
                assert(!kept@.contains(m)) by {
                    if kept@.contains(m) {
                        let k = choose|k: int| 0 <= k < kept@.len() && kept@[k] == m;
                    }
                }
            }
        }
    }
    proof {
        assert forall|a: int, b: int|
            0 <= a < b < kept@.len() implies !near(close@, #[trigger] kept@[a] as int, #[trigger] kept@[b] as int) by {
            assert(kept@.contains(kept@[b]));
        }
    }
    kept
}

} // verus!
