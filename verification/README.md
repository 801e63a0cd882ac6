# cardhannis_core

The task core of CardHannis as a verified library: tasks with repeated block
records and work sessions, workspaces with their own priorities, the rules
that keep them consistent, work-time correction, and the merge that
reconciles a local and a remote copy of the data.

- `src/` is verified with Verus. `store.rs` holds the five tables and the
  invariant every operation keeps (unique identifiers, every reference naming
  a stored row as the SQLite foreign keys require, at most one open block
  record and one running session per task); the operations live in
  `editing.rs`, `lifecycle.rs`, `activity.rs`, `workspaces.rs`, `reorder.rs`
  and `correction.rs`; `sync.rs`, `replica.rs` and `remote.rs` hold the
  synchronization, and `merge_laws.rs` what a merge promises of its
  result; `console.rs` decides when the web console starts and closes,
  how a synchronization round begins, how a remote table is paged and how
  uploads are batched; `service.rs` is the
  facade that stamps changes with the current time; `clock.rs` is the only
  place that calls `chrono` and `uuid`. Operations that draw random
  identifiers each have a `_with_id(s)` form that takes them as arguments
  and says exactly when they are refused.
- `app/` is ordinary Rust around the library: the SQLite file, the JSON forms
  of the records, the settings file, and the loops that sleep, listen and
  send around the library's decisions. It holds no desktop shell, HTTP
  client or server: those crates are not among its dependencies.
- `tests/` runs the library with the real outside crates linked.
