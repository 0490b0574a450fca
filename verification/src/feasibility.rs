//! Feasibility: the first constraint that a candidate point violates.

use vstd::prelude::*;

verus! {

/// Does every verdict hold?
pub open spec fn all_hold(verdicts: Seq<bool>) -> bool {
    forall|k: int| 0 <= k < verdicts.len() ==> #[trigger] verdicts[k]
}

/// `res` is what checking a point against the constraints reports: success
/// when it satisfies every one of them, else the index of the first one it
/// violates.
pub open spec fn reports_first_violation(verdicts: Seq<bool>, res: Result<(), usize>) -> bool {
    match res {
        Ok(()) => all_hold(verdicts),
        Err(i) => {
            &&& i < verdicts.len()
            &&& !verdicts[i as int]
            &&& forall|k: int| 0 <= k < i ==> #[trigger] verdicts[k]
        },
    }
}

/// Given, for one point, whether it satisfies each constraint of the list
/// (`verdicts[k]` for constraint `k`), report success when it satisfies all of
/// them, or else the index of the first constraint it violates -- the
/// constraint that explains why the point is rejected.
pub fn check_all(verdicts: &Vec<bool>) -> (res: Result<(), usize>)
    ensures
        reports_first_violation(verdicts@, res),
{
    let n = verdicts.len();
    for i in 0..n
        invariant
            n == verdicts@.len(),
            forall|k: int| 0 <= k < i ==> #[trigger] verdicts@[k],
    {
        if !verdicts[i] {
            return Err(i);
        }
    }
    Ok(())
}


/// `order` lists each of `0..n` exactly once.
pub open spec fn is_permutation(order: Seq<usize>, n: nat) -> bool {
    &&& order.len() == n
    &&& forall|k: int| 0 <= k < order.len() ==> #[trigger] order[k] < n
    &&& forall|a: int, b: int|
        0 <= a < order.len() && 0 <= b < order.len() && a != b ==> #[trigger] order[a] != #[trigger] order[b]
    &&& forall|t: usize| t < n ==> #[trigger] order.contains(t)
}

/// Walking along `order`, the keys never decrease, and positions with equal
/// keys keep their original relative order.
pub open spec fn is_stably_sorted(keys: Seq<i64>, order: Seq<usize>) -> bool {
    &&& forall|a: int, b: int|
        0 <= a < b < order.len() ==> keys[#[trigger] order[a] as int] <= keys[#[trigger] order[b] as int]
    &&& forall|a: int, b: int|
        0 <= a < b < order.len() && keys[#[trigger] order[a] as int] == keys[#[trigger] order[b] as int]
            ==> order[a] < order[b]
}

/// The walk-around order of the corner points of a convex region, given the
/// order key of each point's angle around the centroid: the point indices
/// sorted by angle, points at equal angles staying in their original order.
pub fn angular_order(angle_keys: &Vec<i64>) -> (order: Vec<usize>)
    ensures
        is_permutation(order@, angle_keys@.len()),
        is_stably_sorted(angle_keys@, order@),
{
    let n = angle_keys.len();
    let mut order: Vec<usize> = Vec::new();
    for i in 0..n
        invariant
            n == angle_keys@.len(),
            is_permutation(order@, i as nat),
            is_stably_sorted(angle_keys@, order@),
    {
        let key = angle_keys[i];
        let mut p: usize = order.len();
        while p > 0 && angle_keys[order[p - 1]] > key
            invariant
                n == angle_keys@.len(),
                i < n,
                key == angle_keys@[i as int],
                p <= order@.len(),
                is_permutation(order@, i as nat),
                forall|q: int| p <= q < order@.len() ==> angle_keys@[#[trigger] order@[q] as int] > key,
            decreases p,
        {
            p = p - 1;
        }
        proof {
            assert forall|q: int| 0 <= q < p implies angle_keys@[#[trigger] order@[q] as int] <= key by {
                assert(angle_keys@[order@[q] as int] <= angle_keys@[order@[p - 1] as int]);
            }
        }
        let ghost old_order = order@;
        order.insert(p, i);
        proof {
            assert(order@ == old_order.insert(p as int, i));
            assert forall|t: usize| t < i + 1 implies #[trigger] order@.contains(t) by {
                if t == i {
                    assert(order@[p as int] == t);
                } else {
                    assert(old_order.contains(t));
                    let k0 = choose|k: int| 0 <= k < old_order.len() && old_order[k] == t;
                    if k0 < p {
                        assert(order@[k0] == t);
                    } else {
                        assert(order@[k0 + 1] == t);
                    }
                }
            }
        }
    }
    order
}

/// `res` is the walk-around order of points with these angle keys: fewer
/// than three points stay as they are; otherwise the points sorted stably by
/// angle, or `None` when some angle has no key.
pub open spec fn orders_polygon(angle_keys: Seq<Option<i64>>, res: Option<Vec<usize>>) -> bool {
    &&& angle_keys.len() < 3 ==> (res matches Some(order) && order@ == Seq::new(angle_keys.len(), |k: int| k as usize))
    &&& angle_keys.len() >= 3 ==> (res is None <==> exists|k: int|
        0 <= k < angle_keys.len() && (#[trigger] angle_keys[k]) is None)
    &&& angle_keys.len() >= 3 ==> (res matches Some(order) ==> {
        &&& is_permutation(order@, angle_keys.len())
        &&& is_stably_sorted(angle_keys.map_values(|o: Option<i64>| o->Some_0), order@)
    })
}

/// Order the corner points of a convex region into a walk-around loop, given
/// the order key of each point's angle around their centroid (`None` for an
/// angle that compares with nothing).  Fewer than three points are already in
/// order.  Otherwise the points are sorted by angle, equal angles keeping
/// their original order; `None` is returned when some angle cannot be
/// compared, since then no such order exists.
pub fn order_polygon(angle_keys: &Vec<Option<i64>>) -> (res: Option<Vec<usize>>)
    ensures
        orders_polygon(angle_keys@, res),
{
    let n = angle_keys.len();
    if n < 3 {
        let mut order: Vec<usize> = Vec::new();
        for i in 0..n
            invariant
                order@ == Seq::new(i as nat, |k: int| k as usize),
        {
            order.push(i);
        }
        return Some(order);
    }
    let mut keys: Vec<i64> = Vec::new();
    for i in 0..n
        invariant
            n == angle_keys@.len(),
            n >= 3,
            keys@.len() == i,
            forall|k: int| 0 <= k < i ==> (#[trigger] angle_keys@[k]) is Some && keys@[k] == angle_keys@[k]->Some_0,
    {
        match angle_keys[i] {
            Some(key) => keys.push(key),
            None => return None,
        }
    }
    let order = angular_order(&keys);
    assert(keys@ == angle_keys@.map_values(|o: Option<i64>| o->Some_0));
    Some(order)
}

} // verus!
