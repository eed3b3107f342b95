# omp_desktop

The decisions behind a desktop host for the `omp` coding agent, written in Verus and
proved against their contracts: which URLs may be opened, when an idle sidecar is
released, which notifications a session earns, what the search index is asked, which
approvals the host answers for the user, how a terminal's output is batched, how the
right panel's paths are contained, and how the app's small stores behave.

- `src/` is the verified library. Each module states its rules as spec functions over
  plain values (`Seq`, `Map`, `Set`, views of the data types) and proves the executable
  code against them; the laws that relate several calls are public proof functions named
  `law_*`.
- `tests/` runs the library on concrete values.
- `app/` is the host around it: the window (Tauri), the engine's sidecars, SQLite, the
  pty and the filesystem. It reads and writes, hands the library plain values, and
  performs what the library decided.
