# easytier_bridge

The decision logic of a mobile front end for EasyTier, verified with Verus, and the
C and Flutter interfaces around it.

- `src/config.rs`: the policy that lets an instance offer private networks only
- `src/session.rs`, `src/session_laws.rs`: starting, stopping and keeping instances, as
  steps that the instance manager performs, and what holds of them together
- `src/instances.rs`: the table of running instances, on `dashmap`
- `src/infos.rs`, `src/json.rs`: reports on the running instances, on `serde_json`
- `src/errors.rs`: the latest error, and texts as C strings
- `src/watch.rs`: the schedule of the two callbacks
- `src/log_buffer.rs`, `src/log_line.rs`, `src/core_logs.rs`, `src/text.rs`: the bounded
  core log, its lines, and its export as JSON
- `src/api.rs`: the operations as the user interface sees them
- `app/`: EasyTier, `tracing`, threads and pointers
- `tests/`: tests on concrete values
