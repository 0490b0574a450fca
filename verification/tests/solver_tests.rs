use solver_core::feasibility::{angular_order, check_all, order_polygon};
use solver_core::intersections::{candidate_pairs, keep_first_distinct};
use solver_core::optimizer::{find_optimal_index, improves};
use solver_core::parser::{build_constraint_list, ConstraintSource};
use solver_core::solver::{active_indices, conclude, is_unbounded, outline_result, partition_candidates, solution_status};
use solver_core::types::{Operator, SolutionStatus};

/// Order key of a float, as a caller derives it: keys compare as the numbers do.
fn key(v: f64) -> Option<i64> {
    if v.is_nan() {
        return None;
    }
    let v = if v == 0.0 { 0.0 } else { v };
    let bits = v.to_bits() as i64;
    Some(bits ^ (((bits >> 63) as u64) >> 1) as i64)
}

#[test]
fn check_all_accepts_point_satisfying_everything() {
    assert_eq!(check_all(&vec![true, true, true]), Ok(()));
    assert_eq!(check_all(&vec![]), Ok(()));
}

#[test]
fn check_all_reports_first_violated_constraint() {
    assert_eq!(check_all(&vec![true, false, false]), Err(1));
    assert_eq!(check_all(&vec![false, true]), Err(0));
    assert_eq!(check_all(&vec![true, true, false]), Err(2));
}

#[test]
fn find_optimal_index_of_empty_list_is_none() {
    assert_eq!(find_optimal_index(&vec![], true), None);
    assert_eq!(find_optimal_index(&vec![], false), None);
}

#[test]
fn find_optimal_index_maximize_and_minimize() {
    let keys = vec![Some(3), Some(9), Some(-4), Some(9), Some(1)];
    assert_eq!(find_optimal_index(&keys, true), Some(1));
    assert_eq!(find_optimal_index(&keys, false), Some(2));
}

#[test]
fn find_optimal_index_keeps_first_among_equals() {
    let keys = vec![Some(5), Some(5), Some(5)];
    assert_eq!(find_optimal_index(&keys, true), Some(0));
    assert_eq!(find_optimal_index(&keys, false), Some(0));
}

#[test]
fn find_optimal_index_ignores_incomparable_values() {
    assert_eq!(find_optimal_index(&vec![Some(1), None, Some(2)], true), Some(2));
    assert_eq!(find_optimal_index(&vec![None, Some(7), Some(8)], true), Some(0));
}

#[test]
fn improves_is_strict() {
    assert!(improves(true, Some(2), Some(1)));
    assert!(!improves(true, Some(1), Some(1)));
    assert!(improves(false, Some(0), Some(1)));
    assert!(!improves(true, None, Some(1)));
    assert!(!improves(true, Some(1), None));
}

/// Worked example: maximize Z = 200x + 500y over the feasible corners of
/// x<=400, y<=300, x+2y<=800, 4x+5y<=2300, 5x+4y<=2500, y<=2x, x>=0, y>=0.
/// The optimum is (200, 300) with Z = 190000.
#[test]
fn worked_example_key_scan_finds_200_300() {
    let corners: Vec<(f64, f64)> = vec![(0.0, 0.0), (150.0, 300.0), (200.0, 300.0), (1100.0 / 3.0, 500.0 / 3.0),
        (400.0, 125.0), (400.0, 0.0)];
    let keys: Vec<Option<i64>> = corners.iter().map(|&(x, y)| key(200.0 * x + 500.0 * y)).collect();
    let best = find_optimal_index(&keys, true).unwrap();
    assert_eq!(corners[best], (200.0, 300.0));
    let (x, y) = corners[best];
    assert!((200.0 * x + 500.0 * y - 190000.0).abs() < 1e-3);
}

/// Minimizing x + y over [0,10]x[0,10] bottoms out at the origin.
#[test]
fn minimize_key_scan_picks_the_origin() {
    let corners: Vec<(f64, f64)> = vec![(10.0, 0.0), (0.0, 10.0), (0.0, 0.0), (10.0, 10.0)];
    let keys: Vec<Option<i64>> = corners.iter().map(|&(x, y)| key(x + y)).collect();
    assert_eq!(find_optimal_index(&keys, false), Some(2));
}

#[test]
fn float_keys_order_like_the_numbers() {
    assert!(key(-1.5).unwrap() < key(-0.5).unwrap());
    assert!(key(-0.5).unwrap() < key(0.0).unwrap());
    assert_eq!(key(-0.0), key(0.0));
    assert!(key(0.0).unwrap() < key(1e-300).unwrap());
    assert!(key(2.0).unwrap() < key(f64::INFINITY).unwrap());
    assert_eq!(key(f64::NAN), None);
}

#[test]
fn angular_order_sorts_stably() {
    assert_eq!(angular_order(&vec![30, -10, 20, -10, 0]), vec![1, 3, 4, 2, 0]);
    assert_eq!(angular_order(&vec![]), Vec::<usize>::new());
    assert_eq!(angular_order(&vec![5, 5, 5]), vec![0, 1, 2]);
}

/// The corners of a unit square, listed out of order, come back in a
/// walk-around order by angle about the centroid.
#[test]
fn angular_order_walks_around_a_square() {
    let pts: Vec<(f64, f64)> = vec![(1.0, 1.0), (0.0, 0.0), (1.0, 0.0), (0.0, 1.0)];
    let keys: Vec<i64> = pts.iter().map(|&(x, y)| key((y - 0.5_f64).atan2(x - 0.5)).unwrap()).collect();
    let order = angular_order(&keys);
    let walked: Vec<(f64, f64)> = order.iter().map(|&k| pts[k]).collect();
    assert_eq!(walked, vec![(0.0, 0.0), (1.0, 0.0), (1.0, 1.0), (0.0, 1.0)]);
}

#[test]
fn candidate_pairs_lists_every_pair_once_in_order() {
    assert_eq!(candidate_pairs(4), vec![(0, 1), (0, 2), (0, 3), (1, 2), (1, 3), (2, 3)]);
    assert_eq!(candidate_pairs(0), vec![]);
    assert_eq!(candidate_pairs(1), vec![]);
    assert_eq!(candidate_pairs(8).len(), 28);
}

#[test]
fn keep_first_distinct_drops_repeated_corners() {
    // point 1 repeats point 0, point 3 repeats point 2, point 4 is new
    let close = vec![
        vec![],
        vec![true],
        vec![false, false],
        vec![false, true, true],
        vec![false, false, false, false],
    ];
    assert_eq!(keep_first_distinct(&close), vec![0, 2, 4]);
}

#[test]
fn keep_first_distinct_compares_only_with_kept_points() {
    // point 2 is close to point 1, but point 1 was dropped, so point 2 stays
    let close = vec![vec![], vec![true], vec![false, true]];
    assert_eq!(keep_first_distinct(&close), vec![0, 2]);
    assert_eq!(keep_first_distinct(&vec![]), Vec::<usize>::new());
}

#[test]
fn active_indices_lists_binding_constraints() {
    assert_eq!(active_indices(&vec![false, true, true, false, true]), vec![1, 2, 4]);
    assert_eq!(active_indices(&vec![false, false]), Vec::<usize>::new());
}

#[test]
fn partition_splits_feasible_and_rejected() {
    let checks = vec![Ok(()), Err(3), Ok(()), Err(0)];
    let (feasible, rejected) = partition_candidates(&checks);
    assert_eq!(feasible, vec![0, 2]);
    assert_eq!(rejected, vec![(1, 3), (3, 0)]);
}

#[test]
fn all_rejected_candidates_give_infeasible() {
    // x>=5, x<=2, x>=0, y>=0: the corners (5,0), (2,0), (0,0) violate
    // x<=2, x>=5 and x>=5 respectively
    let checks = vec![Err(1), Err(0), Err(0)];
    let (feasible, rejected) = partition_candidates(&checks);
    assert!(feasible.is_empty());
    assert_eq!(rejected, vec![(0, 1), (1, 0), (2, 0)]);
    assert_eq!(solution_status(feasible.len(), false), SolutionStatus::Infeasible);
    assert_eq!(solution_status(feasible.len(), true), SolutionStatus::Infeasible);
}

#[test]
fn solution_status_cases() {
    assert_eq!(solution_status(3, true), SolutionStatus::Unbounded);
    assert_eq!(solution_status(3, false), SolutionStatus::Optimal);
}

#[test]
fn unbounded_when_a_feasible_probe_beats_the_best() {
    let probes = vec![(false, Some(100)), (true, Some(5)), (true, Some(20))];
    assert!(is_unbounded(&probes, Some(10), true));
    assert!(!is_unbounded(&probes, Some(30), true));
    assert!(is_unbounded(&probes, Some(10), false));
    assert!(!is_unbounded(&probes, Some(5), false));
    assert!(!is_unbounded(&vec![], Some(0), true));
    assert!(!is_unbounded(&probes, None, true));
}

#[test]
fn operators_compare_by_variant() {
    assert_eq!(Operator::Le, Operator::Le);
    assert_ne!(Operator::Le, Operator::Ge);
    assert_ne!(Operator::Eq, Operator::Ge);
}

#[test]
fn order_polygon_keeps_fewer_than_three_points_as_they_are() {
    assert_eq!(order_polygon(&vec![]), Some(vec![]));
    assert_eq!(order_polygon(&vec![Some(9), None]), Some(vec![0, 1]));
}

#[test]
fn order_polygon_sorts_by_angle() {
    assert_eq!(order_polygon(&vec![Some(3), Some(-2), Some(0)]), Some(vec![1, 2, 0]));
}

#[test]
fn order_polygon_refuses_incomparable_angles() {
    assert_eq!(order_polygon(&vec![Some(3), None, Some(0)]), None);
}

#[test]
fn constraint_list_appends_enabled_restrictions() {
    assert_eq!(
        build_constraint_list(2, true, true),
        vec![ConstraintSource::User(0), ConstraintSource::User(1), ConstraintSource::XNonneg, ConstraintSource::YNonneg]
    );
    assert_eq!(build_constraint_list(1, false, true), vec![ConstraintSource::User(0), ConstraintSource::YNonneg]);
    assert_eq!(build_constraint_list(0, true, false), vec![ConstraintSource::XNonneg]);
    assert_eq!(build_constraint_list(3, false, false), vec![ConstraintSource::User(0), ConstraintSource::User(1), ConstraintSource::User(2)]);
}

#[test]
fn candidate_pairs_count() {
    for n in 0..12usize {
        assert_eq!(candidate_pairs(n).len(), n * n.saturating_sub(1) / 2);
    }
}

#[test]
fn negated_objective_picks_the_same_index() {
    let values = [3.0, -1.5, 7.25, 7.25, 0.0, -0.0];
    let keys: Vec<Option<i64>> = values.iter().map(|&v| key(v)).collect();
    let neg: Vec<Option<i64>> = values.iter().map(|&v| key(-v)).collect();
    assert_eq!(find_optimal_index(&keys, true), Some(2));
    assert_eq!(find_optimal_index(&neg, false), Some(2));
    assert_eq!(find_optimal_index(&keys, false), Some(1));
    assert_eq!(find_optimal_index(&neg, true), Some(1));
}

#[test]
fn outline_of_infeasible_reports_nothing() {
    let out = outline_result(0, true, None, &vec![], vec![]);
    assert_eq!(out.status, SolutionStatus::Infeasible);
    assert!(out.vertices.is_empty());
    assert_eq!(out.optimal, None);
    assert!(out.active_constraints.is_empty());
    assert!(out.polygon.is_empty());
}

#[test]
fn outline_of_unbounded_reports_polygon_only() {
    let out = outline_result(3, true, Some(1), &vec![vec![0], vec![1, 2], vec![2]], vec![2, 0, 1]);
    assert_eq!(out.status, SolutionStatus::Unbounded);
    assert!(out.vertices.is_empty());
    assert_eq!(out.optimal, None);
    assert!(out.active_constraints.is_empty());
    assert_eq!(out.polygon, vec![2, 0, 1]);
}

#[test]
fn outline_of_optimal_reports_everything() {
    let out = outline_result(3, false, Some(1), &vec![vec![0], vec![1, 2], vec![2]], vec![2, 0, 1]);
    assert_eq!(out.status, SolutionStatus::Optimal);
    assert_eq!(out.vertices, vec![0, 1, 2]);
    assert_eq!(out.optimal, Some(1));
    assert_eq!(out.active_constraints, vec![1, 2]);
    assert_eq!(out.polygon, vec![2, 0, 1]);
}

#[test]
fn conclude_compares_probes_with_the_chosen_optimum() {
    let keys = vec![Some(4), Some(9), Some(9)];
    let active = vec![vec![0], vec![1, 3], vec![2]];
    // a feasible probe worth 10 beats the optimum 9: unbounded
    let out = conclude(&keys, true, &vec![(true, Some(10)), (false, Some(50))], &active, vec![0, 1, 2]);
    assert_eq!(out.status, SolutionStatus::Unbounded);
    assert_eq!(out.optimal, None);
    // probes no better than 9: optimal at the first 9
    let out = conclude(&keys, true, &vec![(true, Some(9)), (false, Some(50))], &active, vec![2, 1, 0]);
    assert_eq!(out.status, SolutionStatus::Optimal);
    assert_eq!(out.optimal, Some(1));
    assert_eq!(out.active_constraints, vec![1, 3]);
    assert_eq!(out.vertices, vec![0, 1, 2]);
    assert_eq!(out.polygon, vec![2, 1, 0]);
    // minimizing: optimum 4 at corner 0, a feasible probe worth 5 does not beat it
    let out = conclude(&keys, false, &vec![(true, Some(5))], &active, vec![0, 1, 2]);
    assert_eq!(out.optimal, Some(0));
    assert_eq!(out.active_constraints, vec![0]);
    // no feasible corner: infeasible, whatever the probes say
    let out = conclude(&vec![], true, &vec![(true, Some(1))], &vec![], vec![]);
    assert_eq!(out.status, SolutionStatus::Infeasible);
}
