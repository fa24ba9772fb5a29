# runtime_core

A single-threaded, fine-grained reactive runtime with a verified core, and
the automation surface built on it, written in Verus.

## Layout

- `src/reactive/` — the runtime. `arena` holds the slot tables (signals,
  effects, refs, generations, subscriber and dependency links); `state` is
  the state machine over them (writes, batch windows, effect runs);
  `context` holds scopes, provided contexts and cleanups; `runtime` runs
  callbacks over the state machine and offers the public API (`Signal`,
  `Effect`, `Scope`, `memo`, `batch`, `provide`/`inject`, `Ref`, …).
  Callbacks are values of a type implementing `Reaction`.
- `src/session.rs` — session storage that survives rerenders.
- `src/scheduling.rs` — the scheduler slot and its synchronous fallbacks.
- `src/resource.rs` — the bookkeeping of async resources: sequence
  numbers, cancellation tokens, stale-data retention.
- `src/robot/` — the element registry and robot queries and actions
  (`mod`), the JSON it answers with (`json`, `text`), the bridge's command
  layer and dispatcher (`bridge`), the component-method registry
  (`components`), the signal-watch registry (`watch`), navigator
  snapshots (`navigators`) and the screenshot verb (`screenshot`).
- `src/primitives/` — plain-value parts of the UI primitives: lazy-load
  state, the navigator registry, and how an overlay lowers to a portal.
- `src/table.rs`, `src/seqs.rs` — small verified collections.
- `app/` — the host side: element action closures, JSON argument decoding,
  the TCP listener, its auto-polled start (the port decisions are the
  library's `bind_step`) and periodic poll, discovery files.
- `tests/` — tests run against the compiled library.
