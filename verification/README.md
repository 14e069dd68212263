# Ternary job scheduling, verified

A job scheduler whose priorities take three values: `Reject` (-1, refuse the
job), `Normal` (0, queue it) and `Priority` (+1, queue it ahead of normal
jobs). It has named resource pools, deadline tracking, priority-inversion
detection, a two-level fair queue and a load balancer that rates workers as
overloaded, balanced or underloaded.

Layout:

- `src/` is the library, written in Verus; every function carries a contract
  that Verus proves, and the laws of the library are proof functions next to
  the code they speak of (`law_*`).
  - `priority.rs`: the ternary priority.
  - `name_map.rs`: a table from names to values without repeated names.
  - `job.rs`, `resource_pool.rs`, `deadline.rs`: jobs, pools, deadlines.
  - `fair_queue.rs`: the two-level queue and its model.
  - `scheduler.rs`: the scheduler and the pool bookkeeping of starting and
    completing jobs.
  - `inversion.rs`: priority-inversion detection.
  - `load_balancer.rs`: workers and the load balancer.
  - `seq_util.rs`: sequence helpers used by the specifications.
- `app/` holds what computes in floating point (pool utilization).
- `tests/` runs the library on concrete values.
