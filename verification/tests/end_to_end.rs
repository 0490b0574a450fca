//! End-to-end runs of the graphical method: the floating-point side (as the
//! application computes it) drives the library's decisions.

use solver_core::feasibility::{check_all as first_violation, order_polygon};
use solver_core::intersections::{candidate_pairs, keep_first_distinct};
use solver_core::parser::{build_constraint_list, ConstraintSource};
use solver_core::solver::{active_indices, conclude, partition_candidates};
use solver_core::types::{Operator, SolutionStatus};

const EPS: f64 = 1e-7;

#[derive(Debug, Clone)]
struct Constraint {
    a: f64,
    b: f64,
    op: Operator,
    c: f64,
}

struct Objective {
    a: f64,
    b: f64,
    maximize: bool,
}

#[derive(Debug, Clone, Copy, PartialEq)]
struct Point {
    x: f64,
    y: f64,
}

struct Result {
    status: SolutionStatus,
    feasible_vertices: Vec<Point>,
    optimal_point: Option<Point>,
    objective_value: Option<f64>,
    active_constraints: Vec<usize>,
}

fn key(v: f64) -> Option<i64> {
    if v.is_nan() {
        return None;
    }
    let v = if v == 0.0 { 0.0 } else { v };
    let bits = v.to_bits() as i64;
    Some(bits ^ (((bits >> 63) as u64) >> 1) as i64)
}

fn le(a: f64, b: f64, c: f64) -> Constraint {
    Constraint { a, b, op: Operator::Le, c }
}
fn ge(a: f64, b: f64, c: f64) -> Constraint {
    Constraint { a, b, op: Operator::Ge, c }
}

fn evaluate(c: &Constraint, p: &Point) -> f64 {
    c.a * p.x + c.b * p.y
}

fn satisfies(c: &Constraint, p: &Point) -> bool {
    let lhs = evaluate(c, p);
    match c.op {
        Operator::Le => lhs <= c.c + EPS,
        Operator::Ge => lhs >= c.c - EPS,
        Operator::Eq => (lhs - c.c).abs() <= EPS,
    }
}

fn check_all(constraints: &[Constraint], p: &Point) -> std::result::Result<(), usize> {
    first_violation(&constraints.iter().map(|c| satisfies(c, p)).collect())
}

fn value(obj: &Objective, p: &Point) -> f64 {
    obj.a * p.x + obj.b * p.y
}

fn intersections(constraints: &[Constraint]) -> Vec<Point> {
    let found: Vec<Point> = candidate_pairs(constraints.len())
        .iter()
        .filter_map(|&(i, j)| {
            let (c1, c2) = (&constraints[i], &constraints[j]);
            let det = c1.a * c2.b - c2.a * c1.b;
            if det.abs() < EPS {
                return None;
            }
            Some(Point { x: (c1.c * c2.b - c2.c * c1.b) / det, y: (c1.a * c2.c - c2.a * c1.c) / det })
        })
        .collect();
    let close: Vec<Vec<bool>> = (0..found.len())
        .map(|m| {
            (0..m)
                .map(|k| (found[k].x - found[m].x).abs() < 1e-6 && (found[k].y - found[m].y).abs() < 1e-6)
                .collect()
        })
        .collect();
    keep_first_distinct(&close).iter().map(|&k| found[k]).collect()
}

fn solve(user: &[Constraint], objective: &Objective, rx: bool, ry: bool) -> Result {
    let constraints: Vec<Constraint> = build_constraint_list(user.len(), rx, ry)
        .iter()
        .map(|s| match *s {
            ConstraintSource::User(k) => user[k].clone(),
            ConstraintSource::XNonneg => ge(1.0, 0.0, 0.0),
            ConstraintSource::YNonneg => ge(0.0, 1.0, 0.0),
        })
        .collect();
    let candidates = intersections(&constraints);
    let checks = candidates.iter().map(|p| check_all(&constraints, p)).collect();
    let (feasible_idx, _rejected) = partition_candidates(&checks);
    let feasible: Vec<Point> = feasible_idx.iter().map(|&k| candidates[k]).collect();

    let keys = feasible.iter().map(|p| key(value(objective, p))).collect();
    let probes = (0..360)
        .map(|i| {
            let theta = (i as f64) * std::f64::consts::TAU / 360.0;
            let p = Point { x: 1.0e7 * theta.cos(), y: 1.0e7 * theta.sin() };
            (check_all(&constraints, &p).is_ok(), key(value(objective, &p)))
        })
        .collect();

    let active: Vec<Vec<usize>> = feasible
        .iter()
        .map(|p| active_indices(&constraints.iter().map(|c| (evaluate(c, p) - c.c).abs() <= EPS).collect()))
        .collect();
    let n = feasible.len() as f64;
    let (cx, cy) = (feasible.iter().map(|p| p.x).sum::<f64>() / n, feasible.iter().map(|p| p.y).sum::<f64>() / n);
    let angles = feasible.iter().map(|p| key((p.y - cy).atan2(p.x - cx))).collect();
    let polygon = order_polygon(&angles).unwrap();

    let out = conclude(&keys, objective.maximize, &probes, &active, polygon);
    Result {
        status: out.status,
        feasible_vertices: out.vertices.iter().map(|&k| feasible[k]).collect(),
        optimal_point: out.optimal.map(|r| feasible[r]),
        objective_value: out.optimal.map(|r| value(objective, &feasible[r])),
        active_constraints: out.active_constraints,
    }
}

#[test]
fn worked_example_matches_hand_solved_optimum() {
    let constraints = vec![
        le(1.0, 0.0, 400.0),
        le(0.0, 1.0, 300.0),
        le(1.0, 2.0, 800.0),
        le(4.0, 5.0, 2300.0),
        le(5.0, 4.0, 2500.0),
        le(-2.0, 1.0, 0.0),
    ];
    let objective = Objective { a: 200.0, b: 500.0, maximize: true };

    let result = solve(&constraints, &objective, true, true);

    assert_eq!(result.status, SolutionStatus::Optimal);
    let opt = result.optimal_point.expect("expected an optimal point");
    assert!((opt.x - 200.0).abs() < 1e-4, "expected x=200, got {}", opt.x);
    assert!((opt.y - 300.0).abs() < 1e-4, "expected y=300, got {}", opt.y);
    assert!((result.objective_value.unwrap() - 190000.0).abs() < 1e-3);
    assert!(result.active_constraints.len() >= 3);
}

#[test]
fn contradictory_constraints_are_infeasible() {
    let constraints = vec![ge(1.0, 0.0, 5.0), le(1.0, 0.0, 2.0)];
    let objective = Objective { a: 1.0, b: 0.0, maximize: true };

    let result = solve(&constraints, &objective, true, true);

    assert_eq!(result.status, SolutionStatus::Infeasible);
    assert!(result.optimal_point.is_none());
    assert!(result.feasible_vertices.is_empty());
}

#[test]
fn unbounded_region_is_detected() {
    let constraints: Vec<Constraint> = vec![];
    let objective = Objective { a: 1.0, b: 1.0, maximize: true };

    let result = solve(&constraints, &objective, true, true);

    assert_eq!(result.status, SolutionStatus::Unbounded);
    assert!(result.optimal_point.is_none());
}

#[test]
fn minimize_picks_the_lowest_vertex() {
    let constraints = vec![le(1.0, 0.0, 10.0), le(0.0, 1.0, 10.0)];
    let objective = Objective { a: 1.0, b: 1.0, maximize: false };

    let result = solve(&constraints, &objective, true, true);

    assert_eq!(result.status, SolutionStatus::Optimal);
    let opt = result.optimal_point.unwrap();
    assert!((opt.x - 0.0).abs() < EPS.sqrt());
    assert!((opt.y - 0.0).abs() < EPS.sqrt());
    assert!((result.objective_value.unwrap() - 0.0).abs() < 1e-6);
}

#[test]
fn parallel_constraints_do_not_crash_or_fabricate_points() {
    let constraints = vec![le(1.0, 1.0, 10.0), le(1.0, 1.0, 20.0)];
    let objective = Objective { a: 1.0, b: 1.0, maximize: true };

    let result = solve(&constraints, &objective, true, true);

    assert_eq!(result.status, SolutionStatus::Optimal);
    assert!((result.objective_value.unwrap() - 10.0).abs() < 1e-6);
}
