# logforge

The verified core of the LogForge ingest and sampling service.

- `src/` is the library, checked by Verus:
  - `schema` — the log event, its level and the query parameters;
  - `state` — the bounded event store (oldest events leave first) and its
    newest-first, filtered query, with the window and read-after-write laws;
  - `burst` — event fingerprints and the per-window burst counter;
  - `sampling` — the probabilistic sampler's choice of rate bucket;
  - `trace_aware` — the per-trace keep/drop table (a `dashmap::DashMap`);
  - `event_meta`, `text` — event levels, field roles and string helpers.
- `app/` is the HTTP service around it: axum routes, the tracing layers,
  Prometheus metrics, and the floating-point rates and random draws.
- `tests/` exercises the library on concrete values.
