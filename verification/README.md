# aira_graphdb

An embeddable graph database core, written in Verus: the library's functions state what they
return in their contracts, and Verus proves them. Floating-point work (the `FloatOps` trait,
implemented by the program) and clock readings are not stated.

## Layout

- `src/`: the verified library.
  - `errors`, `contracts`, `protocol`: the error registry, the contract data of the
    conformance suites, protocol and type-system negotiation.
  - `graph`, `cypher`, `query`: the in-memory property graph and the Cypher subset engine
    that runs on it (parsing, `MATCH`/`UNWIND`/`CREATE`/`MERGE`/`SET`/`REMOVE`/`DELETE`/`CALL`).
  - `tx`, `storage`: transactions over a base graph (deterministic conflicts), the catalog
    version check, snapshots and write-ahead-log replay.
  - `auth`, `runtime`, `server`: bearer-token checks and the session protocol of the server.
  - `audit`, `bench`, `native_bench`, `conformance`: audit events and their required fields,
    the latency and soak gates, the governance checks of the conformance contracts.
  - `native_state`, `native_query`, `native_ops`, `native_rpc`: the store of the native
    sidecar and its request handling.
  - `text`, `strmap`, `keyed`: character-sequence helpers, a string-keyed map kept in
    insertion order, and a stable sort by key.
- `tests/`: the test suite, run against the compiled library.
- `app/`: the program around the library: files, sockets, JSON, clocks, floating-point
  scores and reports.
