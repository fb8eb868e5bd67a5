# api_server

The request-handling core of the Atomic Patent API server, written in Verus and
proved against its contracts.

## Layout

- `src/` — the verified library.
  - `validation.rs`: field validators with severity-graded errors, composable
    rules, combination and filtering of results.
  - `strkey.rs`: Stellar account ids — 56 base32 digits starting with `G` whose
    decoded bytes end with their CRC16-XModem checksum; `validate_stellar_address`
    accepts exactly these.
  - `validation_middleware.rs`: the standardized error response.
  - `audit.rs`: the HMAC-chained, append-only audit log, its canonical JSON form,
    chain verification and queries.
  - `cache.rs`: the TTL cache over a `DashMap`, key builders, pattern and
    contract-event invalidation.
  - `load_testing.rs`: load-test reports and latency percentiles.
  - `tracing_middleware.rs`, `websocket.rs`, `events.rs`: trace ids, the
    WebSocket subscription state machine, contract event types.
  - `text.rs`, `json.rs`, `ids.rs`: text, JSON and UUID helpers shared by the above.
- `tests/` — the test suite, run against the compiled library.
- `app/` — the plumbing that cannot be verified: axum middleware and handlers,
  tokio locks and channels, the process-wide cache, serde forms of the library's
  types, the load runner and the floating-point throughput.

Calls into outside crates (`hmac`, `sha2`, `hex`, `serde_json`, `uuid`, `chrono`,
`rand`, `dashmap`, `regex`) go through small trusted wrappers whose contracts
state what the crates' sources show; everything around them is verified.
