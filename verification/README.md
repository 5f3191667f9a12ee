# patchhive_backend

The control-plane logic of the PatchHive unified backend, verified with
Verus.

- `src/` is the library. Every function carries a contract that states
  what it returns over the `Seq<char>` views of its texts and the views of
  its data:
  - `text`: trimming, ASCII case folding, splitting, decimal notation.
  - `env`: the snapshot of environment variables the library reads.
  - `config`: `PATCHHIVE_PRODUCTS` selections, listen address, database path.
  - `models`: the reports the backend serves.
  - `registry`: product manifests, suite order, gateway targets, route
    claims and product reports.
  - `gateway`: the decisions of gateway dispatch, one function per
    outcome of the outside work between them.
  - `suite`: suite-wide summaries.
  The `law_*` proof functions state the properties that hold across
  calls (registry ordering, selection normalisation, gateway refusals).
- `app/` is the HTTP service around it: axum routes, the reqwest client
  that performs the gateway's outside work, TOML manifest loading, the
  process environment and the in-memory suite store.
- `tests/` exercises the library on concrete values.
