# agent_os

The core of Agent OS, a desktop workspace in which agents, terminals, browser windows and
chat providers live side by side, written in Verus: each operation states what it does in
its `requires`/`ensures`, and the laws that tie operations together are proved. Each
manager keeps an invariant (one record per key; for those that number their records,
only ids they have given out), which its `check_invariants` method states.

## Layout

- `src/` — the verified library.
  - `table.rs` — an insertion-ordered table with distinct keys, read as a finite map; the
    managers below keep their records in it.
  - `security.rs` — permissions, policies, contexts, and the decision whether a permission
    is allowed in a context.
  - `session.rs` — user sessions and their UI tabs: creation, activation, closing,
    expiry.
  - `orchestration.rs` — agents, supervisors that route tasks to the first capable agent,
    and the orchestrator that registers them.
  - `component.rs` — components and their registry.
  - `provider.rs` — chat providers: where a request goes, its headers, how a reply becomes
    a response, and the registry of providers by name.
  - `browser.rs` — browser windows: their ids and plans, their tab records, and the
    scripts that steer them.
  - `terminal.rs` — terminal sessions by id, and reading a command line into a program and
    its arguments.
  - `ids.rs`, `text.rs`, `json.rs`, `clock.rs` — numbered ids, text helpers, JSON values
    and the wall clock.
- `tests/` — tests run against the compiled library.
- `app/` — the runtime around the library: the desktop commands and their state, HTTP
  calls to chat providers, and pseudo-terminals.
