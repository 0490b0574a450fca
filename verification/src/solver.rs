//! The decisions of a solve: which candidates are feasible, which constraints
//! bind at a vertex, and what the overall status is.

use vstd::prelude::*;
use crate::types::SolutionStatus;
use crate::feasibility::{all_hold, reports_first_violation};
use crate::optimizer::{beats, find_optimal_index, first_optimum, improves, is_first_optimum, optimum_key};

verus! {

/// The entries of `idx` are strictly increasing.
pub open spec fn increasing(idx: Seq<usize>) -> bool {
    forall|a: int, b: int| 0 <= a < b < idx.len() ==> #[trigger] idx[a] < #[trigger] idx[b]
}

/// `idx` lists, in increasing order, exactly the positions of `flags` that hold.
pub open spec fn lists_exactly(flags: Seq<bool>, idx: Seq<usize>) -> bool {
    &&& increasing(idx)
    &&& forall|a: int| 0 <= a < idx.len() ==> #[trigger] idx[a] < flags.len() && flags[idx[a] as int]
    &&& forall|k: usize| k < flags.len() && flags[k as int] ==> #[trigger] idx.contains(k)
}

/// The constraints active (binding) at a vertex: given, per constraint,
/// whether the vertex lies on its boundary line, the indices of those that do.
pub fn active_indices(binding: &Vec<bool>) -> (active: Vec<usize>)
    ensures
        lists_exactly(binding@, active@),
{
    let n = binding.len();
    let mut active: Vec<usize> = Vec::new();
    for i in 0..n
        invariant
            n == binding@.len(),
            increasing(active@),
            forall|a: int| 0 <= a < active@.len() ==> #[trigger] active@[a] < i && binding@[active@[a] as int],
            forall|k: usize| k < i && binding@[k as int] ==> #[trigger] active@.contains(k),
    {
        if binding[i] {
            let ghost before = active@;
            active.push(i);
            proof {
                assert(active@[before.len() as int] == i);
                assert forall|k: usize| k < i + 1 && binding@[k as int] implies #[trigger] active@.contains(k) by {
                    if k < i {
                        assert(before.contains(k));
                        let t = choose|t: int| 0 <= t < before.len() && before[t] == k;
                        assert(active@[t] == k);
                    }
                }
            }
        }
    }
    active
}

/// The outcome of checking every candidate point: the indices of those that
/// satisfy every constraint, and, for each of the others, its index paired
/// with the first constraint it violates.
pub open spec fn partitions(
    checks: Seq<Result<(), usize>>,
    feasible: Seq<usize>,
    rejected: Seq<(usize, usize)>,
) -> bool {
    &&& increasing(feasible)
    &&& forall|a: int| 0 <= a < feasible.len() ==> #[trigger] feasible[a] < checks.len() && checks[feasible[a] as int] is Ok
    &&& forall|k: usize| k < checks.len() && checks[k as int] is Ok ==> #[trigger] feasible.contains(k)
    &&& forall|a: int, b: int| 0 <= a < b < rejected.len() ==> (#[trigger] rejected[a]).0 < (#[trigger] rejected[b]).0
    &&& forall|a: int| 0 <= a < rejected.len() ==> (#[trigger] rejected[a]).0 < checks.len()
        && checks[rejected[a].0 as int] == Err::<(), usize>(rejected[a].1)
    &&& forall|k: usize, v: usize| k < checks.len() && checks[k as int] == Err::<(), usize>(v)
        ==> #[trigger] rejected.contains((k, v))
    &&& feasible.len() + rejected.len() == checks.len()
}

/// Split the candidate points by the result of their feasibility check, keeping
/// the original order within each part: feasible points by index, rejected
/// points by index together with the constraint that rejected them.
pub fn partition_candidates(checks: &Vec<Result<(), usize>>) -> (res: (Vec<usize>, Vec<(usize, usize)>))
    ensures
        partitions(checks@, res.0@, res.1@),
{
    let n = checks.len();
    let mut feasible: Vec<usize> = Vec::new();
    let mut rejected: Vec<(usize, usize)> = Vec::new();
    for i in 0..n
        invariant
            n == checks@.len(),
            increasing(feasible@),
            forall|a: int| 0 <= a < feasible@.len() ==> #[trigger] feasible@[a] < i && checks@[feasible@[a] as int] is Ok,
            forall|k: usize| k < i && checks@[k as int] is Ok ==> #[trigger] feasible@.contains(k),
            forall|a: int, b: int| 0 <= a < b < rejected@.len() ==> (#[trigger] rejected@[a]).0 < (#[trigger] rejected@[b]).0,
            forall|a: int| 0 <= a < rejected@.len() ==> (#[trigger] rejected@[a]).0 < i
                && checks@[rejected@[a].0 as int] == Err::<(), usize>(rejected@[a].1),
            forall|k: usize, v: usize| k < i && checks@[k as int] == Err::<(), usize>(v)
                ==> #[trigger] rejected@.contains((k, v)),
            feasible@.len() + rejected@.len() == i,
    {
        match checks[i] {
            Ok(()) => {
                let ghost before = feasible@;
                feasible.push(i);
                proof {
                    assert(feasible@[before.len() as int] == i);
                    assert forall|k: usize| k < i + 1 && checks@[k as int] is Ok implies #[trigger] feasible@.contains(k) by {
                        if k < i {
                            assert(before.contains(k));
                            let t = choose|t: int| 0 <= t < before.len() && before[t] == k;
                            assert(feasible@[t] == k);
                        }
                    }
                }
            },
            Err(v) => {
                let ghost before = rejected@;
                rejected.push((i, v));
                proof {
                    assert(rejected@[before.len() as int] == (i, v));
                    assert forall|k: usize, w: usize| k < i + 1 && checks@[k as int] == Err::<(), usize>(w)
                        implies #[trigger] rejected@.contains((k, w)) by {
                        if k < i {
                            assert(before.contains((k, w)));
                            let t = choose|t: int| 0 <= t < before.len() && before[t] == (k, w);
                            assert(rejected@[t] == (k, w));
                        } else {
                            assert(rejected@[before.len() as int] == (k, w));
                        }
                    }
                }
            },
        }
    }
    (feasible, rejected)
}

/// The status that a solve reports, from the number of feasible candidates and
/// whether the objective was found to improve without bound.
pub open spec fn status_for(feasible_count: nat, unbounded: bool) -> SolutionStatus {
    if feasible_count == 0 {
        SolutionStatus::Infeasible
    } else if unbounded {
        SolutionStatus::Unbounded
    } else {
        SolutionStatus::Optimal
    }
}

/// The status of a solve: infeasible when no candidate point satisfies every
/// constraint; otherwise unbounded when the objective was found to improve
/// without bound over the feasible region; otherwise optimal.
pub fn solution_status(feasible_count: usize, unbounded: bool) -> (status: SolutionStatus)
    ensures
        status == status_for(feasible_count as nat, unbounded),
{
    if feasible_count == 0 {
        SolutionStatus::Infeasible
    } else if unbounded {
        SolutionStatus::Unbounded
    } else {
        SolutionStatus::Optimal
    }
}


/// The unboundedness test: the objective grows without bound when some probe
/// point far out on a large circle satisfies every constraint and beats the
/// best value found at any finite corner.  `probes[k]` holds, for probe `k`,
/// whether it is feasible and the order key of the objective there;
/// `best_known` is the order key of the best value at a finite corner.
pub fn is_unbounded(probes: &Vec<(bool, Option<i64>)>, best_known: Option<i64>, maximize: bool) -> (res: bool)
    ensures
        res <==> exists|k: int|
            0 <= k < probes@.len() && (#[trigger] probes@[k]).0 && beats(maximize, probes@[k].1, best_known),
{
    let n = probes.len();
    for i in 0..n
        invariant
            n == probes@.len(),
            forall|k: int| 0 <= k < i ==> !((#[trigger] probes@[k]).0 && beats(maximize, probes@[k].1, best_known)),
    {
        let (feasible, value) = probes[i];
        if feasible && improves(maximize, value, best_known) {
            assert(probes@[i as int].0 && beats(maximize, probes@[i as int].1, best_known));
            return true;
        }
    }
    false
}

/// Which parts of a solve's answer are reported, by position in the list of
/// feasible corner points; the caller fills in the coordinates.
pub struct ResultOutline {
    pub status: SolutionStatus,
    /// Corners reported as vertices of the region, in order.
    pub vertices: Vec<usize>,
    /// The corner reported as the optimal point (and whose objective value is
    /// reported).
    pub optimal: Option<usize>,
    /// Constraints active at the optimal point.
    pub active_constraints: Vec<usize>,
    /// Corners of the region in drawing order.
    pub polygon: Vec<usize>,
}

/// The shape of the answer of a solve for each status: an infeasible problem
/// reports nothing but its rejected candidates; an unbounded one reports the
/// region's polygon and no optimum; an optimal one reports every feasible
/// corner as a vertex, the optimal corner with the constraints active there,
/// and the polygon.
pub open spec fn outlines(
    out: ResultOutline,
    feasible_count: nat,
    unbounded: bool,
    optimal: Option<usize>,
    active: Seq<Seq<usize>>,
    polygon: Seq<usize>,
) -> bool {
    &&& out.status == status_for(feasible_count, unbounded)
    &&& match out.status {
        SolutionStatus::Infeasible => {
            &&& out.vertices@.len() == 0
            &&& out.optimal is None
            &&& out.active_constraints@.len() == 0
            &&& out.polygon@.len() == 0
        },
        SolutionStatus::Unbounded => {
            &&& out.vertices@.len() == 0
            &&& out.optimal is None
            &&& out.active_constraints@.len() == 0
            &&& out.polygon@ == polygon
        },
        SolutionStatus::Optimal => {
            &&& out.vertices@ == Seq::new(feasible_count, |k: int| k as usize)
            &&& out.optimal == optimal
            &&& out.active_constraints@ == active[optimal->Some_0 as int]
            &&& out.polygon@ == polygon
        },
    }
}

/// Assemble the answer of a solve from its decisions: how many candidates are
/// feasible, whether the objective was found unbounded, the optimal corner
/// (a position in the feasible list), the constraints active at each feasible
/// corner, and the region's corners in drawing order.
pub fn outline_result(
    feasible_count: usize,
    unbounded: bool,
    optimal: Option<usize>,
    active: &Vec<Vec<usize>>,
    polygon: Vec<usize>,
) -> (out: ResultOutline)
    requires
        feasible_count > 0 && !unbounded ==> (optimal matches Some(r) && r < active@.len()),
    ensures
        outlines(out, feasible_count as nat, unbounded, optimal, active@.map_values(|v: Vec<usize>| v@), polygon@),
{
    let status = solution_status(feasible_count, unbounded);
    match status {
        SolutionStatus::Infeasible => ResultOutline {
            status,
            vertices: Vec::new(),
            optimal: None,
            active_constraints: Vec::new(),
            polygon: Vec::new(),
        },
        SolutionStatus::Unbounded => ResultOutline {
            status,
            vertices: Vec::new(),
            optimal: None,
            active_constraints: Vec::new(),
            polygon,
        },
        SolutionStatus::Optimal => {
            let mut vertices: Vec<usize> = Vec::new();
            for k in 0..feasible_count
                invariant
                    vertices@ == Seq::new(k as nat, |i: int| i as usize),
            {
                vertices.push(k);
            }
            let r = optimal.unwrap();
            let at_optimum = &active[r];
            let mut active_constraints: Vec<usize> = Vec::new();
            for t in 0..at_optimum.len()
                invariant
                    active_constraints@ == at_optimum@.subrange(0, t as int),
            {
                active_constraints.push(at_optimum[t]);
                assert(active_constraints@ =~= at_optimum@.subrange(0, t + 1));
            }
            assert(active_constraints@ =~= at_optimum@);
            ResultOutline { status, vertices, optimal, active_constraints, polygon }
        },
    }
}

/// Some probe point is feasible and beats `best`.
pub open spec fn probes_beat(probes: Seq<(bool, Option<i64>)>, best: Option<i64>, maximize: bool) -> bool {
    exists|k: int| 0 <= k < probes.len() && (#[trigger] probes[k]).0 && beats(maximize, probes[k].1, best)
}

/// The answer of a solve from what was computed at the feasible corners and
/// the probe points: `keys[p]` is the order key of the objective at feasible
/// corner `p`, `active[p]` the constraints active there, `polygon` the corners
/// in drawing order, and `probes` the probe points far out on a large circle
/// (whether each is feasible, and the order key of the objective there).
///
/// The optimum is the corner the first-best scan selects; the probes are
/// compared with the objective value at that same corner; and that same corner
/// is the one the answer reports as optimal.
pub fn conclude(
    keys: &Vec<Option<i64>>,
    maximize: bool,
    probes: &Vec<(bool, Option<i64>)>,
    active: &Vec<Vec<usize>>,
    polygon: Vec<usize>,
) -> (out: ResultOutline)
    requires
        active@.len() == keys@.len(),
    ensures
        outlines(
            out,
            keys@.len(),
            probes_beat(probes@, optimum_key(keys@, maximize), maximize),
            first_optimum(keys@, maximize),
            active@.map_values(|v: Vec<usize>| v@),
            polygon@,
        ),
{
    let optimal = find_optimal_index(keys, maximize);
    let best_known = match optimal {
        Some(r) => keys[r],
        None => None,
    };
    let unbounded = is_unbounded(probes, best_known, maximize);
    outline_result(keys.len(), unbounded, optimal, active, polygon)
}

/// Each candidate was checked against the whole constraint list:
/// `checks[k]` is what checking candidate `k` reports, given `verdicts[k]`,
/// the per-constraint verdicts for that candidate.
pub open spec fn checked_against(verdicts: Seq<Seq<bool>>, checks: Seq<Result<(), usize>>) -> bool {
    &&& checks.len() == verdicts.len()
    &&& forall|k: int| 0 <= k < checks.len() ==> reports_first_violation(#[trigger] verdicts[k], checks[k])
}

/// A candidate point is kept as feasible exactly when it satisfies every
/// constraint, and each rejected candidate is recorded with the first
/// constraint it violates.
pub proof fn lemma_feasible_iff_all_constraints_hold(
    verdicts: Seq<Seq<bool>>,
    checks: Seq<Result<(), usize>>,
    feasible: Seq<usize>,
    rejected: Seq<(usize, usize)>,
)
    requires
        checked_against(verdicts, checks),
        partitions(checks, feasible, rejected),
    ensures
        forall|k: usize| k < verdicts.len() ==> (#[trigger] feasible.contains(k) <==> all_hold(verdicts[k as int])),
        forall|a: int| 0 <= a < rejected.len() ==> {
            let (k, v) = #[trigger] rejected[a];
            &&& k < verdicts.len()
            &&& v < verdicts[k as int].len()
            &&& !verdicts[k as int][v as int]
            &&& forall|c: int| 0 <= c < v ==> #[trigger] verdicts[k as int][c]
        },
{
    assert forall|k: usize| k < verdicts.len() implies (#[trigger] feasible.contains(k) <==> all_hold(verdicts[k as int])) by {
        if feasible.contains(k) {
            let t = choose|t: int| 0 <= t < feasible.len() && feasible[t] == k;
            assert(checks[feasible[t] as int] is Ok);
        }
        if all_hold(verdicts[k as int]) {
            assert(reports_first_violation(verdicts[k as int], checks[k as int]));
            if checks[k as int] is Err {
                let v = checks[k as int]->Err_0;
                assert(!verdicts[k as int][v as int]);
            }
        }
    }
    assert forall|a: int| 0 <= a < rejected.len() implies {
        let (k, v) = #[trigger] rejected[a];
        &&& k < verdicts.len()
        &&& v < verdicts[k as int].len()
        &&& !verdicts[k as int][v as int]
        &&& forall|c: int| 0 <= c < v ==> #[trigger] verdicts[k as int][c]
    } by {
        let (k, v) = rejected[a];
        assert(reports_first_violation(verdicts[k as int], checks[k as int]));
    }
}

/// A solve is reported infeasible exactly when no candidate point satisfies
/// every constraint; it is reported optimal only when some candidate does and
/// the objective was not found to grow without bound.
pub proof fn lemma_status_reflects_feasibility(
    verdicts: Seq<Seq<bool>>,
    checks: Seq<Result<(), usize>>,
    feasible: Seq<usize>,
    rejected: Seq<(usize, usize)>,
    unbounded: bool,
)
    requires
        checked_against(verdicts, checks),
        partitions(checks, feasible, rejected),
    ensures
        status_for(feasible.len(), unbounded) == SolutionStatus::Infeasible
            <==> forall|k: usize| k < verdicts.len() ==> !all_hold(#[trigger] verdicts[k as int]),
        status_for(feasible.len(), unbounded) == SolutionStatus::Optimal
            <==> !unbounded && exists|k: usize| k < verdicts.len() && all_hold(#[trigger] verdicts[k as int]),
{
    lemma_feasible_iff_all_constraints_hold(verdicts, checks, feasible, rejected);
    if feasible.len() > 0 {
        let k = feasible[0];
        assert(feasible.contains(k));
        assert(all_hold(verdicts[k as int]));
    }
    if exists|k: usize| k < verdicts.len() && all_hold(#[trigger] verdicts[k as int]) {
        let k = choose|k: usize| k < verdicts.len() && all_hold(#[trigger] verdicts[k as int]);
        assert(feasible.contains(k));
    }
}

/// The optimum is a corner that satisfies every constraint, and no feasible
/// corner has a strictly better objective value.  (`keys[p]` is the order key
/// of the objective at the feasible candidate `feasible[p]`.)
pub proof fn lemma_optimum_is_best_feasible_corner(
    verdicts: Seq<Seq<bool>>,
    checks: Seq<Result<(), usize>>,
    feasible: Seq<usize>,
    rejected: Seq<(usize, usize)>,
    keys: Seq<Option<i64>>,
    maximize: bool,
    r: int,
)
    requires
        checked_against(verdicts, checks),
        partitions(checks, feasible, rejected),
        keys.len() == feasible.len(),
        is_first_optimum(keys, maximize, r),
    ensures
        feasible[r] < verdicts.len(),
        all_hold(verdicts[feasible[r] as int]),
        forall|p: int| 0 <= p < feasible.len() ==> !beats(maximize, #[trigger] keys[p], keys[r]),
{
    lemma_feasible_iff_all_constraints_hold(verdicts, checks, feasible, rejected);
    assert(feasible.contains(feasible[r]));
}

} // verus!
