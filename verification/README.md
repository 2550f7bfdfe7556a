# data_save_manager

Typed queues that keep accepted batches until their writer acknowledges success, with a
PostgreSQL writer that owns deadlines, atomic receipts and failure diagnostics. Storage is
volatile: process termination and adapter panics are not recoverable.

`src/` is the library, verified with Verus:

- `admission`: the door that producers pass; it counts them and closes for good.
- `clock`: readings of a monotonic clock and deadlines as plain values.
- `inbox`: the receiving end of a channel and the record of its answers.
- `queue`: batches, retries, alerts and acknowledgements.
- `depth`: the counters that queues share with their producers.
- `shared`: words that threads share, with a record of what was done to them.
- `worker`: what a background worker waits for, and when it is done.
- `telemetry`: instruments, their labels, and what an attempt records.
- `timeouts`: the three limits of a write and the settings they come from.
- `json`: documents and their ordered objects.
- `postgres::nul_recovery`: documents without NUL characters.
- `postgres::session`: session names, session limits, payload sizes.
- `postgres::writer`: statements, receipts, the stages of a write and its deadline.
- `postgres::diagnostics`: failures and backends in words.
- `text`: numerals, UUIDs and comparisons.

`app/` is ordinary Rust around it: the async queue and worker, the OpenTelemetry meter, the
database connections and the environment. `tests/` runs the library.
