# alloy-transport-balancer

Load balancing, rate-limit throttling and request batching for JSON-RPC transports, verified with
Verus.

- `src/` is the library. It decides: which endpoint to try, how long to wait, what to send
  together, who gets which response. It never waits, locks or sends.
- `app/` is ordinary Rust around it: process-wide registries, tower services for alloy, the
  background flush task, and a benchmark that draws charts.
- `tests/` runs the library on concrete values.

| Module | What it holds |
| --- | --- |
| `throttle`, `registry`, `snapshot` | per-domain backoff, the known domains, what they look like |
| `domain`, `endpoint`, `client_pool` | rate-limit groups, endpoints, one HTTP client per group |
| `balancer` | configuration, construction, weighted round-robin |
| `call`, `lookahead`, `error` | one request through rotation, failover and retry rounds |
| `packet`, `batching`, `retry` | JSON-RPC packets, accumulation, retry of missing responses |
| `chart` | layout and figures of the benchmark charts |
| `duration`, `text` | durations in nanoseconds, searching in text |

What holds of several operations together stands in the modules whose names end in `_laws`, and
beside the types it is about where it is short.

What the library takes on trust is marked where it stands: `Duration` and the clock of `std`,
sharing through `Arc`, `reqwest`'s clients and URL parser, and `serde_json`'s serializer.
