//! Picking the optimal corner point.
//!
//! The caller evaluates the objective at each feasible corner and hands over an
//! order key per value: `Some(k)` for an ordinary number, where keys compare as
//! the numbers do, and `None` for a value that compares false against every
//! number (not-a-number).

use vstd::prelude::*;

verus! {

/// Is objective value `a` strictly better than `b`?  Larger is better when
/// maximizing, smaller when minimizing; a missing key is never better and
/// nothing is better than it.
pub open spec fn beats(maximize: bool, a: Option<i64>, b: Option<i64>) -> bool {
    match (a, b) {
        (Some(x), Some(y)) => if maximize { x > y } else { x < y },
        _ => false,
    }
}

/// Is the objective value with key `val` strictly better than the one with
/// key `best`?
pub fn improves(maximize: bool, val: Option<i64>, best: Option<i64>) -> (res: bool)
    ensures
        res == beats(maximize, val, best),
{
    match (val, best) {
        (Some(v), Some(b)) => if maximize { v > b } else { v < b },
        _ => false,
    }
}

/// Index `r` is the optimum of `keys` that the first-best scan selects: when
/// `keys[0]` is comparable, `r` holds a comparable key that no entry beats,
/// and every comparable entry before it is strictly worse; when `keys[0]` is
/// not comparable, nothing ever displaces it.
pub open spec fn is_first_optimum(keys: Seq<Option<i64>>, maximize: bool, r: int) -> bool {
    &&& 0 <= r < keys.len()
    &&& keys[0] is None ==> r == 0
    &&& keys[0] is Some ==> {
        &&& keys[r] is Some
        &&& forall|k: int| 0 <= k < keys.len() ==> !beats(maximize, #[trigger] keys[k], keys[r])
        &&& forall|k: int| 0 <= k < r && (#[trigger] keys[k]) is Some ==> keys[k] != keys[r]
    }
}

/// Given the order keys of the objective at a list of points, return the
/// index of the point that optimizes the objective (maximum or minimum, per
/// `maximize`), the earliest one among equals.  Returns `None` if the list is
/// empty -- there is nothing to pick from.
pub fn find_optimal_index(keys: &Vec<Option<i64>>, maximize: bool) -> (res: Option<usize>)
    ensures
        res is None <==> keys@.len() == 0,
        res matches Some(r) ==> is_first_optimum(keys@, maximize, r as int),
        res == first_optimum(keys@, maximize),
{
    if keys.len() == 0 {
        return None;
    }
    let n = keys.len();
    let mut best_idx: usize = 0;
    let mut i: usize = 1;
    while i < n
        invariant
            n == keys@.len(),
            1 <= i <= n,
            best_idx < i,
            keys@[0] is None ==> best_idx == 0,
            keys@[0] is Some ==> {
                &&& keys@[best_idx as int] is Some
                &&& forall|k: int| 0 <= k < i ==> !beats(maximize, #[trigger] keys@[k], keys@[best_idx as int])
                &&& forall|k: int| 0 <= k < best_idx && (#[trigger] keys@[k]) is Some ==> keys@[k] != keys@[best_idx as int]
            },
        decreases n - i,
    {
        if improves(maximize, keys[i], keys[best_idx]) {
            best_idx = i;
        }
        i = i + 1;
    }
    proof {
        let r = choose|r: usize| is_first_optimum(keys@, maximize, r as int);
        assert(is_first_optimum(keys@, maximize, best_idx as int));
        lemma_first_optimum_unique(keys@, maximize, r as int, best_idx as int);
    }
    Some(best_idx)
}

/// The index that the first-best scan selects, or `None` for an empty list.
pub open spec fn first_optimum(keys: Seq<Option<i64>>, maximize: bool) -> Option<usize> {
    if keys.len() == 0 {
        None
    } else {
        Some(choose|r: usize| is_first_optimum(keys, maximize, r as int))
    }
}

/// The order key of the optimal value, if any.
pub open spec fn optimum_key(keys: Seq<Option<i64>>, maximize: bool) -> Option<i64> {
    match first_optimum(keys, maximize) {
        Some(r) => keys[r as int],
        None => None,
    }
}

/// `rev` holds the order keys of the negated objective values: the same
/// entries are incomparable, and comparable entries compare the other way
/// round.
pub open spec fn reverses_order(keys: Seq<Option<i64>>, rev: Seq<Option<i64>>) -> bool {
    &&& rev.len() == keys.len()
    &&& forall|k: int| 0 <= k < keys.len() ==> ((#[trigger] keys[k]) is None <==> rev[k] is None)
    &&& forall|a: int, b: int|
        0 <= a < keys.len() && 0 <= b < keys.len() && (#[trigger] keys[a]) is Some && (#[trigger] keys[b]) is Some
            ==> (keys[a]->Some_0 < keys[b]->Some_0 <==> rev[b]->Some_0 < rev[a]->Some_0)
}

/// There is only one first optimum.
pub proof fn lemma_first_optimum_unique(keys: Seq<Option<i64>>, maximize: bool, r1: int, r2: int)
    requires
        is_first_optimum(keys, maximize, r1),
        is_first_optimum(keys, maximize, r2),
    ensures
        r1 == r2,
{
    if keys[0] is Some {
        assert(!beats(maximize, keys[r1], keys[r2]));
        assert(!beats(maximize, keys[r2], keys[r1]));
        assert(keys[r1] == keys[r2]);
    }
}

/// Maximizing an objective picks the same point as minimizing its negation,
/// and minimizing picks the same point as maximizing the negation.
pub proof fn lemma_negated_objective_same_index(
    keys: Seq<Option<i64>>,
    rev: Seq<Option<i64>>,
    maximize: bool,
    r1: int,
    r2: int,
)
    requires
        reverses_order(keys, rev),
        is_first_optimum(keys, maximize, r1),
        is_first_optimum(rev, !maximize, r2),
    ensures
        r1 == r2,
{
    assert(is_first_optimum(keys, maximize, r2)) by {
        if keys[0] is Some {
            assert(rev[0] is Some);
            assert(keys[r2] is Some);
            assert forall|k: int| 0 <= k < keys.len() implies !beats(maximize, #[trigger] keys[k], keys[r2]) by {
                assert(!beats(!maximize, rev[k], rev[r2]));
            }
            assert forall|k: int| 0 <= k < r2 && (#[trigger] keys[k]) is Some implies keys[k] != keys[r2] by {
                assert(rev[k] is Some);
                assert(rev[k] != rev[r2]);
                assert(!beats(!maximize, rev[k], rev[r2]));
            }
        } else {
            assert(rev[0] is None);
        }
    }
    lemma_first_optimum_unique(keys, maximize, r1, r2);
}

} // verus!
