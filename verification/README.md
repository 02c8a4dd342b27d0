# aster

A verified library for ASTER, a small language and deterministic runtime for
AI agents that need judgment without ambient authority: a model proposes typed
data, while the runtime owns effects, budgets, state publication and replay.

Every function in `src/` is checked by Verus against its `requires` /
`ensures` contract. The contracts are stated over spec functions and views
(`Seq`, `Map`, `int`), and the laws that relate several operations stand as
public proof functions next to the code they speak of.

## Layout

- `src/lexer.rs`, `src/parser.rs`, `src/formatter.rs`: source text to tokens,
  to a module tree, and back to canonical text.
- `src/checker.rs`, `src/expression.rs`, `src/model.rs`: the static checks
  (duplicate identities, type well-formedness, secret placement, capability
  requests, metadata, recursion, executable bodies).
- `src/lowering.rs`, `src/ir.rs`: lowering a checked module to a sealed
  program with a content hash.
- `src/machine.rs`, `src/budget.rs`, `src/host.rs`, `src/boundary.rs`: the
  step machine, its budgets and permits, and the host effect boundary.
- `src/trace.rs`, `src/record.rs`, `src/replay.rs`: the hash-chained run
  trace, recording a run against a fixture driver, and driver-free replay.
- `src/digest.rs`, `src/json.rs`: the few calls into outside crates (SHA-256,
  hex, JSON string escaping), each behind a trusted item whose contract
  states what the crate's source shows.
- `app/`: the command-line front end (argument handling and file I/O).
- `tests/`: executable tests of the library.
