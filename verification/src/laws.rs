//! What the operations are for, stated directly over their inputs and
//! results: each law takes a result as the operation's contract describes it
//! and says, in plain terms, what that result is.

use vstd::prelude::*;
use crate::types::SolutionStatus;
use crate::parser::{constraint_layout, ConstraintSource};
use crate::intersections::{keeps_first_of_each, lists_all_pairs};
use crate::feasibility::{is_permutation, is_stably_sorted, orders_polygon, reports_first_violation};
use crate::optimizer::{beats, first_optimum, is_first_optimum, lemma_first_optimum_unique, optimum_key};
use crate::solver::{lists_exactly, outlines, partitions, probes_beat, status_for, ResultOutline};

verus! {

/// The internal constraint list holds the user's constraints at their own
/// indices, then `x >= 0` exactly when that restriction is enabled, then
/// `y >= 0` exactly when that one is, and nothing else.
pub proof fn law_constraint_list_layout(
    user_count: nat,
    restrict_x_nonneg: bool,
    restrict_y_nonneg: bool,
    all: Seq<ConstraintSource>,
)
    requires
        all == constraint_layout(user_count, restrict_x_nonneg, restrict_y_nonneg),
    ensures
        all.len() == user_count + (if restrict_x_nonneg { 1nat } else { 0nat }) + (if restrict_y_nonneg { 1nat } else { 0nat }),
        forall|k: int| 0 <= k < user_count ==> #[trigger] all[k] == ConstraintSource::User(k as usize),
        restrict_x_nonneg ==> all[user_count as int] == ConstraintSource::XNonneg,
        restrict_y_nonneg ==> all[all.len() - 1] == ConstraintSource::YNonneg,
        all.contains(ConstraintSource::XNonneg) <==> restrict_x_nonneg,
        all.contains(ConstraintSource::YNonneg) <==> restrict_y_nonneg,
        forall|k: int| 0 <= k < all.len() && (#[trigger] all[k]) is User ==> k < user_count && all[k] == ConstraintSource::User(k as usize),
{
    if restrict_x_nonneg {
        assert(all[user_count as int] == ConstraintSource::XNonneg);
    }
    if restrict_y_nonneg {
        assert(all[all.len() - 1] == ConstraintSource::YNonneg);
    }
    if all.contains(ConstraintSource::XNonneg) {
        let k = choose|k: int| 0 <= k < all.len() && all[k] == ConstraintSource::XNonneg;
        assert(k >= user_count);
    }
    if all.contains(ConstraintSource::YNonneg) {
        let k = choose|k: int| 0 <= k < all.len() && all[k] == ConstraintSource::YNonneg;
        assert(k >= user_count);
    }
}

/// De-duplication keeps a found point exactly when no earlier kept point lies
/// within tolerance of it (`close[m][k]` for the earlier point `k`), whichever
/// kept point that is; the kept points come in the order found, and no kept
/// point is within tolerance of an earlier kept one.
pub proof fn law_keep_first_distinct(close: Seq<Vec<bool>>, kept: Seq<usize>)
    requires
        keeps_first_of_each(close, kept),
    ensures
        forall|a: int, b: int| 0 <= a < b < kept.len() ==> #[trigger] kept[a] < #[trigger] kept[b],
        forall|a: int| 0 <= a < kept.len() ==> #[trigger] kept[a] < close.len(),
        forall|a: int, b: int| 0 <= a < b < kept.len() ==>
            !(kept[a] < close[kept[b] as int]@.len() && close[#[trigger] kept[b] as int]@[#[trigger] kept[a] as int]),
        forall|m: usize| m < close.len() ==> (!(#[trigger] kept.contains(m)) <==> exists|t: int|
            0 <= t < kept.len() && kept[t] < m && kept[t] < close[m as int]@.len()
                && close[m as int]@[#[trigger] kept[t] as int]),
{
    assert forall|a: int, b: int| 0 <= a < b < kept.len() implies
        !(kept[a] < close[kept[b] as int]@.len() && close[#[trigger] kept[b] as int]@[#[trigger] kept[a] as int]) by {
        assert(kept.contains(kept[b]));
    }
}

/// The answer reported for each status: with no feasible corner, the status is
/// Infeasible and nothing is reported; with feasible corners and the objective
/// found unbounded, the status is Unbounded and only the drawing-order polygon
/// is reported; otherwise the status is Optimal, every feasible corner is
/// reported once as a vertex in order, and the given optimum is reported with
/// the constraints active there and the polygon.
pub proof fn law_outline_by_status(
    feasible_count: nat,
    unbounded: bool,
    optimal: Option<usize>,
    active: Seq<Vec<usize>>,
    polygon: Seq<usize>,
    out: ResultOutline,
)
    requires
        feasible_count <= usize::MAX,
        feasible_count > 0 && !unbounded ==> (optimal matches Some(r) && r < active.len()),
        outlines(out, feasible_count, unbounded, optimal, active.map_values(|v: Vec<usize>| v@), polygon),
    ensures
        feasible_count == 0 ==> {
            &&& out.status == SolutionStatus::Infeasible
            &&& out.vertices@.len() == 0
            &&& out.optimal is None
            &&& out.active_constraints@.len() == 0
            &&& out.polygon@.len() == 0
        },
        feasible_count > 0 && unbounded ==> {
            &&& out.status == SolutionStatus::Unbounded
            &&& out.vertices@.len() == 0
            &&& out.optimal is None
            &&& out.active_constraints@.len() == 0
            &&& out.polygon@ == polygon
        },
        feasible_count > 0 && !unbounded ==> {
            &&& out.status == SolutionStatus::Optimal
            &&& out.vertices@.len() == feasible_count
            &&& forall|k: int| 0 <= k < feasible_count ==> #[trigger] out.vertices@[k] == k
            &&& out.optimal == optimal
            &&& out.active_constraints@ == active[optimal->Some_0 as int]@
            &&& out.polygon@ == polygon
        },
{
    if feasible_count > 0 && !unbounded {
        let r = optimal->Some_0;
        assert(active.map_values(|v: Vec<usize>| v@)[r as int] == active[r as int]@);
        assert forall|k: int| 0 <= k < feasible_count implies #[trigger] out.vertices@[k] == k by {
            assert(out.vertices@ == Seq::new(feasible_count, |i: int| i as usize));
        }
    }
}

/// The verdict of a solve from the corners and the probes: with no feasible
/// corner it is Infeasible; otherwise, with `r` the corner the first-best
/// scan selects, it is Unbounded (no optimum reported, the polygon still
/// drawn) exactly when some feasible probe has a comparable objective value
/// strictly above that corner's when maximizing, or strictly below it when
/// minimizing; and otherwise it is Optimal at that same corner `r`, with the
/// constraints active at `r` and every corner reported as a vertex.
pub proof fn law_conclude_verdict(
    keys: Seq<Option<i64>>,
    maximize: bool,
    probes: Seq<(bool, Option<i64>)>,
    active: Seq<Vec<usize>>,
    polygon: Seq<usize>,
    out: ResultOutline,
    r: usize,
)
    requires
        keys.len() <= usize::MAX,
        active.len() == keys.len(),
        outlines(
            out,
            keys.len(),
            probes_beat(probes, optimum_key(keys, maximize), maximize),
            first_optimum(keys, maximize),
            active.map_values(|v: Vec<usize>| v@),
            polygon,
        ),
        is_first_optimum(keys, maximize, r as int),
    ensures
        ({
            let escapes = exists|k: int| 0 <= k < probes.len() && (#[trigger] probes[k]).0
                && probes[k].1 is Some && keys[r as int] is Some
                && (if maximize { probes[k].1->Some_0 > keys[r as int]->Some_0 }
                    else { probes[k].1->Some_0 < keys[r as int]->Some_0 });
            &&& escapes ==> {
                &&& out.status == SolutionStatus::Unbounded
                &&& out.optimal is None
                &&& out.vertices@.len() == 0
                &&& out.polygon@ == polygon
            }
            &&& !escapes ==> {
                &&& out.status == SolutionStatus::Optimal
                &&& out.optimal == Some(r)
                &&& out.active_constraints@ == active[r as int]@
                &&& out.vertices@.len() == keys.len()
                &&& forall|k: int| 0 <= k < keys.len() ==> #[trigger] out.vertices@[k] == k
                &&& out.polygon@ == polygon
            }
        }),
{
    let c = choose|c: usize| is_first_optimum(keys, maximize, c as int);
    lemma_first_optimum_unique(keys, maximize, c as int, r as int);
    assert(first_optimum(keys, maximize) == Some(r));
    assert(optimum_key(keys, maximize) == keys[r as int]);
    let escapes = exists|k: int| 0 <= k < probes.len() && (#[trigger] probes[k]).0
        && probes[k].1 is Some && keys[r as int] is Some
        && (if maximize { probes[k].1->Some_0 > keys[r as int]->Some_0 }
            else { probes[k].1->Some_0 < keys[r as int]->Some_0 });
    if escapes {
        let k = choose|k: int| 0 <= k < probes.len() && (#[trigger] probes[k]).0
            && probes[k].1 is Some && keys[r as int] is Some
            && (if maximize { probes[k].1->Some_0 > keys[r as int]->Some_0 }
                else { probes[k].1->Some_0 < keys[r as int]->Some_0 });
        assert(crate::optimizer::beats(maximize, probes[k].1, keys[r as int]));
        assert(probes_beat(probes, optimum_key(keys, maximize), maximize));
    } else {
        if probes_beat(probes, optimum_key(keys, maximize), maximize) {
            let k = choose|k: int| 0 <= k < probes.len() && (#[trigger] probes[k]).0
                && crate::optimizer::beats(maximize, probes[k].1, optimum_key(keys, maximize));
            assert(false);
        }
        assert(keys.len() > 0);
        assert(active.map_values(|v: Vec<usize>| v@)[r as int] == active[r as int]@);
        assert forall|k: int| 0 <= k < keys.len() implies #[trigger] out.vertices@[k] == k by {
            assert(out.vertices@ == Seq::new(keys.len(), |i: int| i as usize));
        }
    }
}

/// With no feasible corner a solve is Infeasible and reports nothing, whatever
/// the probes say.
pub proof fn law_conclude_without_corners(
    keys: Seq<Option<i64>>,
    maximize: bool,
    probes: Seq<(bool, Option<i64>)>,
    active: Seq<Vec<usize>>,
    polygon: Seq<usize>,
    out: ResultOutline,
)
    requires
        keys.len() == 0,
        outlines(
            out,
            keys.len(),
            probes_beat(probes, optimum_key(keys, maximize), maximize),
            first_optimum(keys, maximize),
            active.map_values(|v: Vec<usize>| v@),
            polygon,
        ),
    ensures
        out.status == SolutionStatus::Infeasible,
        out.optimal is None,
        out.vertices@.len() == 0,
        out.polygon@.len() == 0,
{
}

/// Checking a point succeeds exactly when it satisfies every constraint; a
/// failure names a constraint it violates, and it satisfies every constraint
/// before that one.
pub proof fn law_check_all(verdicts: Seq<bool>, res: Result<(), usize>)
    requires
        reports_first_violation(verdicts, res),
    ensures
        res is Ok <==> forall|k: int| 0 <= k < verdicts.len() ==> #[trigger] verdicts[k],
        res matches Err(i) ==> i < verdicts.len() && !verdicts[i as int]
            && forall|k: int| 0 <= k < i ==> #[trigger] verdicts[k],
{
    if res is Err {
        let i = res->Err_0;
        assert(!verdicts[i as int]);
    }
}

/// The walk-around order lists every point exactly once, with angles never
/// decreasing, and points at equal angles in their original order.
pub proof fn law_angular_order(keys: Seq<i64>, order: Seq<usize>)
    requires
        is_permutation(order, keys.len()),
        is_stably_sorted(keys, order),
    ensures
        order.len() == keys.len(),
        forall|k: int| 0 <= k < order.len() ==> #[trigger] order[k] < keys.len(),
        forall|a: int, b: int| 0 <= a < b < order.len() ==> #[trigger] order[a] != #[trigger] order[b],
        forall|t: usize| t < keys.len() ==> #[trigger] order.contains(t),
        forall|a: int, b: int| 0 <= a < b < order.len() ==>
            keys[#[trigger] order[a] as int] <= keys[#[trigger] order[b] as int],
        forall|a: int, b: int| 0 <= a < b < order.len() && keys[#[trigger] order[a] as int] == keys[#[trigger] order[b] as int]
            ==> order[a] < order[b],
{
}

/// Ordering a polygon: fewer than three points stay as they are; otherwise
/// the order fails exactly when some angle has no key, and else it is a
/// walk-around order by angle, equal angles in their original order.
pub proof fn law_order_polygon(keys: Seq<Option<i64>>, res: Option<Vec<usize>>)
    requires
        orders_polygon(keys, res),
    ensures
        keys.len() < 3 ==> res is Some && res->Some_0@.len() == keys.len()
            && forall|k: int| 0 <= k < keys.len() ==> #[trigger] res->Some_0@[k] == k as usize,
        keys.len() >= 3 ==> (res is None <==> exists|k: int| 0 <= k < keys.len() && (#[trigger] keys[k]) is None),
        keys.len() >= 3 && res is Some ==> {
            let order = res->Some_0@;
            &&& order.len() == keys.len()
            &&& forall|k: int| 0 <= k < order.len() ==> #[trigger] order[k] < keys.len()
            &&& forall|a: int, b: int| 0 <= a < b < order.len() ==> #[trigger] order[a] != #[trigger] order[b]
            &&& forall|a: int, b: int| 0 <= a < b < order.len() ==>
                keys[#[trigger] order[a] as int]->Some_0 <= keys[#[trigger] order[b] as int]->Some_0
            &&& forall|a: int, b: int| 0 <= a < b < order.len()
                && keys[#[trigger] order[a] as int] == keys[#[trigger] order[b] as int] ==> order[a] < order[b]
        },
{
    if keys.len() >= 3 && res is Some {
        let order = res->Some_0@;
        let plain = keys.map_values(|o: Option<i64>| o->Some_0);
        assert forall|a: int, b: int| 0 <= a < b < order.len() implies
            keys[#[trigger] order[a] as int]->Some_0 <= keys[#[trigger] order[b] as int]->Some_0 by {
            assert(plain[order[a] as int] <= plain[order[b] as int]);
        }
        assert forall|a: int, b: int| 0 <= a < b < order.len()
            && keys[#[trigger] order[a] as int] == keys[#[trigger] order[b] as int] implies order[a] < order[b] by {
            assert(plain[order[a] as int] == plain[order[b] as int]);
        }
    }
}

/// The optimum scan: an empty list has no optimum; otherwise, when the first
/// value is comparable, the chosen point has a comparable value that no
/// comparable value exceeds (maximizing) or undercuts (minimizing), and every
/// comparable value before it is strictly worse; when the first value is not
/// comparable, the first point is kept.
pub proof fn law_find_optimal_index(keys: Seq<Option<i64>>, maximize: bool, res: Option<usize>)
    requires
        res is None <==> keys.len() == 0,
        res matches Some(r) ==> is_first_optimum(keys, maximize, r as int),
    ensures
        res is None <==> keys.len() == 0,
        res matches Some(r) ==> r < keys.len(),
        res matches Some(r) ==> (keys[0] is None ==> r == 0),
        res matches Some(r) ==> (keys[0] is Some ==> {
            &&& keys[r as int] is Some
            &&& forall|k: int| 0 <= k < keys.len() && (#[trigger] keys[k]) is Some ==>
                (if maximize { keys[k]->Some_0 <= keys[r as int]->Some_0 } else { keys[k]->Some_0 >= keys[r as int]->Some_0 })
            &&& forall|k: int| 0 <= k < r && (#[trigger] keys[k]) is Some ==>
                (if maximize { keys[k]->Some_0 < keys[r as int]->Some_0 } else { keys[k]->Some_0 > keys[r as int]->Some_0 })
        }),
{
    if res is Some && keys[0] is Some {
        let r = res->Some_0 as int;
        assert forall|k: int| 0 <= k < keys.len() && (#[trigger] keys[k]) is Some implies
            (if maximize { keys[k]->Some_0 <= keys[r]->Some_0 } else { keys[k]->Some_0 >= keys[r]->Some_0 }) by {
            assert(!beats(maximize, keys[k], keys[r]));
        }
        assert forall|k: int| 0 <= k < r && (#[trigger] keys[k]) is Some implies
            (if maximize { keys[k]->Some_0 < keys[r]->Some_0 } else { keys[k]->Some_0 > keys[r]->Some_0 }) by {
            assert(!beats(maximize, keys[k], keys[r]));
            assert(keys[k] != keys[r]);
        }
    }
}

/// One value improves on another exactly when both are comparable and it is
/// strictly larger (maximizing) or strictly smaller (minimizing).
pub proof fn law_improves(maximize: bool, val: Option<i64>, best: Option<i64>, res: bool)
    requires
        res == beats(maximize, val, best),
    ensures
        res <==> (val is Some && best is Some
            && (if maximize { val->Some_0 > best->Some_0 } else { val->Some_0 < best->Some_0 })),
{
}

/// The unboundedness test holds exactly when some feasible probe has a
/// comparable value strictly better than the best known one.
pub proof fn law_is_unbounded(probes: Seq<(bool, Option<i64>)>, best: Option<i64>, maximize: bool, res: bool)
    requires
        res <==> exists|k: int| 0 <= k < probes.len() && (#[trigger] probes[k]).0 && beats(maximize, probes[k].1, best),
    ensures
        res <==> exists|k: int| 0 <= k < probes.len() && (#[trigger] probes[k]).0 && probes[k].1 is Some && best is Some
            && (if maximize { probes[k].1->Some_0 > best->Some_0 } else { probes[k].1->Some_0 < best->Some_0 }),
{
}

/// The status: Infeasible without feasible corners, else Unbounded when the
/// objective was found unbounded, else Optimal.
pub proof fn law_solution_status(feasible_count: nat, unbounded: bool, status: SolutionStatus)
    requires
        status == status_for(feasible_count, unbounded),
    ensures
        status == SolutionStatus::Infeasible <==> feasible_count == 0,
        status == SolutionStatus::Unbounded <==> feasible_count > 0 && unbounded,
        status == SolutionStatus::Optimal <==> feasible_count > 0 && !unbounded,
{
}

/// The candidate pairs: `n * (n - 1) / 2` of them, each a pair `i < j < n`,
/// every such pair present exactly once, in nested-loop order.
pub proof fn law_candidate_pairs(n: nat, pairs: Seq<(usize, usize)>)
    requires
        lists_all_pairs(n, pairs),
    ensures
        pairs.len() == n * (n - 1) / 2,
        forall|k: int| 0 <= k < pairs.len() ==> (#[trigger] pairs[k]).0 < pairs[k].1 < n,
        forall|i: usize, j: usize| i < j < n ==> #[trigger] pairs.contains((i, j)),
        forall|a: int, b: int| 0 <= a < b < pairs.len() ==>
            (#[trigger] pairs[a]).0 < (#[trigger] pairs[b]).0 || (pairs[a].0 == pairs[b].0 && pairs[a].1 < pairs[b].1),
{
}

/// The active constraints are exactly the binding ones, in increasing order.
pub proof fn law_active_indices(binding: Seq<bool>, active: Seq<usize>)
    requires
        lists_exactly(binding, active),
    ensures
        forall|a: int, b: int| 0 <= a < b < active.len() ==> #[trigger] active[a] < #[trigger] active[b],
        forall|a: int| 0 <= a < active.len() ==> #[trigger] active[a] < binding.len() && binding[active[a] as int],
        forall|k: usize| k < binding.len() && binding[k as int] ==> #[trigger] active.contains(k),
{
}

/// Splitting the candidates: the feasible ones are exactly those whose check
/// succeeded, in order; the rejected ones are exactly the others, in order,
/// each with the constraint its check reported; together they account for
/// every candidate once.
pub proof fn law_partition(checks: Seq<Result<(), usize>>, feasible: Seq<usize>, rejected: Seq<(usize, usize)>)
    requires
        partitions(checks, feasible, rejected),
    ensures
        forall|a: int, b: int| 0 <= a < b < feasible.len() ==> #[trigger] feasible[a] < #[trigger] feasible[b],
        forall|a: int| 0 <= a < feasible.len() ==> #[trigger] feasible[a] < checks.len() && checks[feasible[a] as int] is Ok,
        forall|k: usize| k < checks.len() && checks[k as int] is Ok ==> #[trigger] feasible.contains(k),
        forall|a: int, b: int| 0 <= a < b < rejected.len() ==> (#[trigger] rejected[a]).0 < (#[trigger] rejected[b]).0,
        forall|a: int| 0 <= a < rejected.len() ==> (#[trigger] rejected[a]).0 < checks.len()
            && checks[rejected[a].0 as int] == Err::<(), usize>(rejected[a].1),
        forall|k: usize, v: usize| k < checks.len() && checks[k as int] == Err::<(), usize>(v) ==>
            #[trigger] rejected.contains((k, v)),
        feasible.len() + rejected.len() == checks.len(),
{
}

} // verus!
