# solver-core

A two-variable linear-programming solver using the graphical method:
intersect the constraint boundary lines pairwise, keep the candidate corners
that satisfy every constraint, detect unboundedness, pick the optimal corner,
and order the feasible region into a drawable polygon.

- `src/` is the verified library (Verus). It holds the decisions the method
  makes from the numbers: the layout of the constraint list, which line pairs are intersected
  and in what order, the de-duplication of repeated corners, the first
  violated constraint of a point, the split into feasible and rejected
  candidates, the optimum, the unboundedness criterion, the status, the
  active constraints, the walk-around order of the region, and which parts of
  the answer are reported for each status. Numbers reach it as verdicts and
  order keys.
- `app/` holds the floating-point side: coordinates, Cramer's rule, tolerance
  comparisons, trigonometry, the serializable result types, and the
  WebAssembly entry point (compiled only for `wasm32`).
- `tests/` exercises the library, and runs the method end to end with a
  floating-point harness like the one in `app/`.
