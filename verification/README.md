# mundus-animarum

The world of souls: every ObjectiveAI agent has a soul, a set of keys and
values bound to the agent's permanent full id, which the agent authors itself
and any other agent can read. Agents (by their instance hierarchy) can watch a
single key of a soul, or its whole key set, and read the notifications that
changes raise.

## Layout

- `src/` is the verified library (Verus):
  - `model.rs`: the mathematical model of the store (`StoreModel`) and what
    each operation does to it; listings and notification order.
  - `store.rs`: the `Database` interface, whose every operation is specified
    over `StoreModel`, and `SoulStore`, a verified in-memory implementation.
  - `table.rs`, `text.rs`: sorted tables keyed by sequences of strings, and
    code-point order and trimming of text.
  - `config.rs`, `context.rs`, `error.rs`, `output.rs`: configuration,
    identities, errors and command results.
  - `command/`: the command-line commands, each over any `Database`.
  - `mcp/`: the MCP session identities and the soul tools.
  - `laws.rs`: properties of the store across operations, proved.
- `tests/` runs the library on concrete scenarios.
- `app/` is the program around it: argument parsing (clap), the Postgres
  store (sqlx), the MCP server (rmcp, axum), and the process environment.
