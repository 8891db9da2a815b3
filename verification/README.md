# gpu_annealing

Orchestration for simulated annealing: cooling schedules, single and parallel
trials, annealing over a dependency DAG, and annealing under a conservation
constraint.

- `src/` is the verified library (Verus). It holds the logic that is stated
  over integers: the dependency graph (`graph`), kept in a `petgraph` graph,
  with its cycle check and topological order; move bookkeeping (`stats`);
  the choice of the best trial by cost keys (`selection`); and the index
  checks of a conserving transfer (`transfer`).
- `app/` holds the annealers themselves (`CoolingSchedule`, `AnnealingState`,
  `ParallelAnnealing`, `TopologyAwareAnnealing`, `ConservationAnnealing`, ...),
  whose temperatures, costs and values are floating point, and calls the
  library for the rest.
- `tests/` exercises the library.
