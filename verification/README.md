# mindkernel

A self-modifying agent that rewrites its own source code, driven by
homeostatic drives and by operators it discovers from its own successes.

- `src/` is the verified library (Verus): the operator pool and its
  usage-based eviction, the random draws of candidate actions, pattern
  discovery, the unified-diff generator and patcher, source hashing, the
  knowledge log, the resource ledger, the decisions of one attempt at an
  action, and the system-call table. Each public function states its result
  in `ensures`; the laws that relate several functions are the public
  `law_*` proof functions.
- `app/` is the program around it: the life cycle, the floating-point drive
  and world models, the file system, the sandbox build, and the HTTP clients.
- `tests/` runs the library on concrete values.
